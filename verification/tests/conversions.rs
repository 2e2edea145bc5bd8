use nvmbuilder::layout::conversions::convert_value_to_bytes;
use nvmbuilder::layout::entry::ScalarType;
use nvmbuilder::layout::errors::LayoutError;
use nvmbuilder::layout::ieee754::{
    f64_cast_saturating, f64_integral, f64_to_f32, nat_survives_float, nat_to_float_bits_exec,
};
use nvmbuilder::layout::settings::Endianness;
use nvmbuilder::layout::value::DataValue;

fn samples() -> Vec<f64> {
    let mut out = vec![
        0.0,
        -0.0,
        1.0,
        -1.0,
        0.5,
        -0.5,
        1.5,
        2.5,
        -2.5,
        255.0,
        255.9,
        256.0,
        -128.0,
        -128.9,
        -129.0,
        65535.0,
        65536.0,
        4294967295.0,
        4294967296.0,
        9223372036854775807.0,
        9223372036854775808.0,
        -9223372036854775808.0,
        -9223372036854777856.0,
        18446744073709551615.0,
        18446744073709549568.0,
        1e19,
        1e20,
        -1e20,
        1e300,
        -1e300,
        1e-300,
        5e-324,
        f64::MIN_POSITIVE,
        f64::MAX,
        f64::MIN,
        f64::INFINITY,
        f64::NEG_INFINITY,
        f64::NAN,
        -f64::NAN,
        f64::EPSILON,
        3.4028234663852886e38,
        3.4028235677973366e38,
        3.4028235677973362e38,
        3.4028236e38,
        1.1754943508222875e-38,
        1.1754942106924411e-38,
        1.401298464324817e-45,
        7.006492321624085e-46,
        7.006492321624087e-46,
        7.0064923216240838e-46,
        2.1019476964872256e-45,
        16777216.0,
        16777217.0,
        16777218.0,
        16777219.0,
        0.1,
        0.2,
        0.3,
        123456789.123456789,
        -123456789.123456789,
        4503599627370496.0,
        4503599627370495.5,
        9007199254740992.0,
        9007199254740993.0,
    ];
    // A reproducible spread of bit patterns.
    let mut x: u64 = 0x9E37_79B9_7F4A_7C15;
    for _ in 0..4000 {
        x ^= x << 13;
        x ^= x >> 7;
        x ^= x << 17;
        out.push(f64::from_bits(x));
        // the same fraction near the binary32 range
        let e = 1023 - 160 + (x % 320);
        out.push(f64::from_bits((x & 0x800F_FFFF_FFFF_FFFF) | (e << 52)));
    }
    out
}

fn integers() -> Vec<u64> {
    let mut out = vec![
        0,
        1,
        2,
        3,
        255,
        256,
        16777215,
        16777216,
        16777217,
        16777218,
        16777219,
        33554431,
        33554433,
        4294967295,
        4294967296,
        9007199254740991,
        9007199254740992,
        9007199254740993,
        9007199254740994,
        9007199254740995,
        9223372036854775807,
        9223372036854775808,
        9223372036854775809,
        9223372036854774784,
        9223372036854775295,
        9223372036854775296,
        18446744073709551615,
        18446744073709551614,
        18446744073709550592,
        18446744073709549568,
        18446742974197923840,
        18446743523953737728,
    ];
    let mut x: u64 = 0x2545_F491_4F6C_DD1D;
    for _ in 0..4000 {
        x ^= x << 13;
        x ^= x >> 7;
        x ^= x << 17;
        out.push(x);
        out.push(x >> (x % 64));
    }
    out
}

#[test]
fn float_to_integer_casts_match_the_machine() {
    for v in samples() {
        let bits = v.to_bits();
        assert_eq!(f64_cast_saturating(bits, 0, u8::MAX as i128), (v as u8) as i128, "{v:e} as u8");
        assert_eq!(f64_cast_saturating(bits, 0, u16::MAX as i128), (v as u16) as i128);
        assert_eq!(f64_cast_saturating(bits, 0, u32::MAX as i128), (v as u32) as i128);
        assert_eq!(f64_cast_saturating(bits, 0, u64::MAX as i128), (v as u64) as i128);
        assert_eq!(
            f64_cast_saturating(bits, i8::MIN as i128, i8::MAX as i128),
            (v as i8) as i128
        );
        assert_eq!(
            f64_cast_saturating(bits, i16::MIN as i128, i16::MAX as i128),
            (v as i16) as i128
        );
        assert_eq!(
            f64_cast_saturating(bits, i32::MIN as i128, i32::MAX as i128),
            (v as i32) as i128
        );
        assert_eq!(
            f64_cast_saturating(bits, i64::MIN as i128, i64::MAX as i128),
            (v as i64) as i128,
            "{v:e} as i64"
        );
        assert_eq!(f64_integral(bits), v.is_finite() && v.fract() == 0.0, "{v:e}");
    }
}

#[test]
fn float_narrowing_matches_the_machine() {
    for v in samples() {
        let narrow = f64_to_f32(v.to_bits());
        if v.is_nan() {
            assert!(f32::from_bits(narrow).is_nan());
            assert_eq!(narrow >> 31, (v.to_bits() >> 63) as u32);
        } else {
            assert_eq!(narrow, (v as f32).to_bits(), "{v:e}");
        }
    }
    assert_eq!(f64_to_f32(f64::NAN.to_bits()), 0x7FC0_0000);
}

#[test]
fn integer_to_float_casts_match_the_machine() {
    for v in integers() {
        assert_eq!(nat_to_float_bits_exec(v, 53, 1074), (v as f64).to_bits(), "{v} as f64");
        assert_eq!(nat_to_float_bits_exec(v, 24, 149), (v as f32).to_bits() as u64, "{v} as f32");
        assert_eq!(nat_survives_float(v, 53, u64::MAX), ((v as f64) as u64) == v, "{v} via f64");
        assert_eq!(nat_survives_float(v, 24, u64::MAX), ((v as f32) as u64) == v, "{v} via f32");
    }
}

fn lossy(value: DataValue, ty: ScalarType) -> Vec<u8> {
    convert_value_to_bytes(&value, ty, &Endianness::Little, false).expect("lossy conversion")
}

fn strict(value: DataValue, ty: ScalarType) -> Result<Vec<u8>, LayoutError> {
    convert_value_to_bytes(&value, ty, &Endianness::Little, true)
}

fn reason(r: Result<Vec<u8>, LayoutError>) -> String {
    match r {
        Err(LayoutError::DataValueExportFailed(m)) => m,
        other => panic!("expected an export failure, got {:?}", other),
    }
}

#[test]
fn lossy_conversions_match_as_casts() {
    for v in integers() {
        let i = v as i64;
        assert_eq!(lossy(DataValue::U64(v), ScalarType::U8), (v as u8).to_le_bytes());
        assert_eq!(lossy(DataValue::U64(v), ScalarType::U16), (v as u16).to_le_bytes());
        assert_eq!(lossy(DataValue::U64(v), ScalarType::U32), (v as u32).to_le_bytes());
        assert_eq!(lossy(DataValue::U64(v), ScalarType::U64), v.to_le_bytes());
        assert_eq!(lossy(DataValue::U64(v), ScalarType::I8), (v as i8).to_le_bytes());
        assert_eq!(lossy(DataValue::U64(v), ScalarType::I16), (v as i16).to_le_bytes());
        assert_eq!(lossy(DataValue::U64(v), ScalarType::I32), (v as i32).to_le_bytes());
        assert_eq!(lossy(DataValue::U64(v), ScalarType::I64), (v as i64).to_le_bytes());
        assert_eq!(lossy(DataValue::U64(v), ScalarType::F32), (v as f32).to_le_bytes());
        assert_eq!(lossy(DataValue::U64(v), ScalarType::F64), (v as f64).to_le_bytes());
        assert_eq!(lossy(DataValue::I64(i), ScalarType::U8), (i as u8).to_le_bytes());
        assert_eq!(lossy(DataValue::I64(i), ScalarType::U16), (i as u16).to_le_bytes());
        assert_eq!(lossy(DataValue::I64(i), ScalarType::U32), (i as u32).to_le_bytes());
        assert_eq!(lossy(DataValue::I64(i), ScalarType::U64), (i as u64).to_le_bytes());
        assert_eq!(lossy(DataValue::I64(i), ScalarType::I8), (i as i8).to_le_bytes());
        assert_eq!(lossy(DataValue::I64(i), ScalarType::I16), (i as i16).to_le_bytes());
        assert_eq!(lossy(DataValue::I64(i), ScalarType::I32), (i as i32).to_le_bytes());
        assert_eq!(lossy(DataValue::I64(i), ScalarType::I64), i.to_le_bytes());
        assert_eq!(lossy(DataValue::I64(i), ScalarType::F32), (i as f32).to_le_bytes(), "{i}");
        assert_eq!(lossy(DataValue::I64(i), ScalarType::F64), (i as f64).to_le_bytes(), "{i}");
    }
    for v in samples() {
        if v.is_nan() {
            continue;
        }
        let f = DataValue::F64(v.to_bits(), v.to_string());
        assert_eq!(lossy(f.clone(), ScalarType::U8), (v as u8).to_le_bytes());
        assert_eq!(lossy(f.clone(), ScalarType::I16), (v as i16).to_le_bytes());
        assert_eq!(lossy(f.clone(), ScalarType::U32), (v as u32).to_le_bytes());
        assert_eq!(lossy(f.clone(), ScalarType::I64), (v as i64).to_le_bytes());
        assert_eq!(lossy(f.clone(), ScalarType::F32), (v as f32).to_le_bytes());
        assert_eq!(lossy(f, ScalarType::F64), v.to_le_bytes());
    }
}

#[test]
fn big_endian_reverses_the_bytes() {
    let le = convert_value_to_bytes(
        &DataValue::U64(0x0102_0304),
        ScalarType::U32,
        &Endianness::Little,
        false,
    )
    .unwrap();
    let be =
        convert_value_to_bytes(&DataValue::U64(0x0102_0304), ScalarType::U32, &Endianness::Big, false)
            .unwrap();
    assert_eq!(le, vec![4, 3, 2, 1]);
    assert_eq!(be, vec![1, 2, 3, 4]);
    let wide = convert_value_to_bytes(
        &DataValue::I64(-2),
        ScalarType::I64,
        &Endianness::Big,
        true,
    )
    .unwrap();
    assert_eq!(wide, vec![0xFF, 0xFF, 0xFF, 0xFF, 0xFF, 0xFF, 0xFF, 0xFE]);
}

#[test]
fn strict_integer_ranges() {
    assert_eq!(strict(DataValue::U64(255), ScalarType::U8).unwrap(), vec![255]);
    assert_eq!(reason(strict(DataValue::U64(256), ScalarType::U8)), "u64 value 256 out of range for u8");
    assert_eq!(
        reason(strict(DataValue::U64(u64::MAX), ScalarType::I64)),
        "u64 value 18446744073709551615 out of range for i64"
    );
    assert_eq!(strict(DataValue::U64(127), ScalarType::I8).unwrap(), vec![127]);
    assert_eq!(reason(strict(DataValue::U64(128), ScalarType::I8)), "u64 value 128 out of range for i8");
    assert_eq!(
        reason(strict(DataValue::I64(-1), ScalarType::U32)),
        "negative integer cannot convert to unsigned in strict mode"
    );
    assert_eq!(
        reason(strict(DataValue::I64(70000), ScalarType::U16)),
        "i64 value 70000 out of range for u16"
    );
    assert_eq!(
        reason(strict(DataValue::I64(-32769), ScalarType::I16)),
        "i64 value -32769 out of range for i16"
    );
    assert_eq!(
        reason(strict(DataValue::I64(i64::MIN), ScalarType::I32)),
        "i64 value -9223372036854775808 out of range for i32"
    );
    assert_eq!(strict(DataValue::I64(-32768), ScalarType::I16).unwrap(), vec![0x00, 0x80]);
    assert_eq!(strict(DataValue::I64(i64::MIN), ScalarType::I64).unwrap(), i64::MIN.to_le_bytes());
    assert_eq!(strict(DataValue::U64(u64::MAX), ScalarType::U64).unwrap(), u64::MAX.to_le_bytes());
}

#[test]
fn strict_float_to_integer() {
    let f = |v: f64| DataValue::F64(v.to_bits(), v.to_string());
    assert_eq!(strict(f(42.0), ScalarType::I16).unwrap(), vec![42, 0]);
    assert_eq!(strict(f(-0.0), ScalarType::U8).unwrap(), vec![0]);
    assert_eq!(strict(f(-128.0), ScalarType::I8).unwrap(), vec![0x80]);
    assert_eq!(
        reason(strict(f(1.5), ScalarType::U8)),
        "float to integer conversion not allowed unless value is an exact integer"
    );
    assert_eq!(
        reason(strict(f(f64::INFINITY), ScalarType::U8)),
        "non-finite float cannot convert to integer in strict mode"
    );
    assert_eq!(
        reason(strict(f(f64::NAN), ScalarType::I64)),
        "non-finite float cannot convert to integer in strict mode"
    );
    assert_eq!(reason(strict(f(256.0), ScalarType::U8)), "float value 256 out of range for u8");
    assert_eq!(reason(strict(f(-1.0), ScalarType::U64)), "float value -1 out of range for u64");
    assert_eq!(
        reason(strict(f(1e300), ScalarType::I64)),
        format!("float value {} out of range for i64", 1e300f64)
    );
    // 2^63 and 2^64 lie just outside the 64-bit types.
    assert_eq!(
        reason(strict(f(9223372036854775808.0), ScalarType::I64)),
        "float value 9223372036854776000 out of range for i64"
    );
    assert_eq!(
        reason(strict(f(18446744073709551616.0), ScalarType::U64)),
        "float value 18446744073709552000 out of range for u64"
    );
    assert_eq!(
        strict(f(-9223372036854775808.0), ScalarType::I64).unwrap(),
        i64::MIN.to_le_bytes()
    );
    assert_eq!(
        strict(f(9223372036854775808.0), ScalarType::U64).unwrap(),
        (1u64 << 63).to_le_bytes()
    );
}

#[test]
fn strict_to_float_targets() {
    let f = |v: f64| DataValue::F64(v.to_bits(), v.to_string());
    assert_eq!(strict(DataValue::U64(16777216), ScalarType::F32).unwrap(), 16777216f32.to_le_bytes());
    assert_eq!(
        reason(strict(DataValue::U64(16777217), ScalarType::F32)),
        "lossy integer to float conversion not allowed in strict mode"
    );
    assert_eq!(
        reason(strict(DataValue::U64(9007199254740993), ScalarType::F64)),
        "lossy integer to float conversion not allowed in strict mode"
    );
    assert_eq!(
        reason(strict(DataValue::I64(-9007199254740993), ScalarType::F64)),
        "lossy integer to float conversion not allowed in strict mode"
    );
    assert_eq!(
        strict(DataValue::I64(-9007199254740992), ScalarType::F64).unwrap(),
        (-9007199254740992f64).to_le_bytes()
    );
    for v in integers() {
        let i = v as i64;
        assert_eq!(strict(DataValue::U64(v), ScalarType::F64).is_ok(), ((v as f64) as u64) == v);
        assert_eq!(strict(DataValue::U64(v), ScalarType::F32).is_ok(), ((v as f32) as u64) == v);
        assert_eq!(strict(DataValue::I64(i), ScalarType::F64).is_ok(), ((i as f64) as i64) == i, "{i}");
        assert_eq!(strict(DataValue::I64(i), ScalarType::F32).is_ok(), ((i as f32) as i64) == i, "{i}");
    }
    assert_eq!(strict(f(1.5), ScalarType::F32).unwrap(), 1.5f32.to_le_bytes());
    assert_eq!(strict(f(0.1), ScalarType::F32).unwrap(), 0.1f32.to_le_bytes());
    assert_eq!(
        reason(strict(f(1e39), ScalarType::F32)),
        "float value 1000000000000000000000000000000000000000 out of range for f32"
    );
    assert_eq!(
        reason(strict(f(f64::NAN), ScalarType::F32)),
        "non-finite float not allowed in strict mode"
    );
    assert_eq!(strict(f(f64::INFINITY), ScalarType::F64).unwrap(), f64::INFINITY.to_le_bytes());
    assert_eq!(strict(f(0.1), ScalarType::F64).unwrap(), 0.1f64.to_le_bytes());
}

#[test]
fn strings_are_never_scalars() {
    for strict_mode in [false, true] {
        for ty in [ScalarType::U8, ScalarType::I64, ScalarType::F32, ScalarType::F64] {
            let r = convert_value_to_bytes(
                &DataValue::Str("12".to_string()),
                ty,
                &Endianness::Little,
                strict_mode,
            );
            assert_eq!(reason(r), "Cannot convert string to scalar type.");
        }
    }
    assert_eq!(DataValue::Str("héllo".to_string()).string_to_bytes().unwrap(), "héllo".as_bytes());
    match DataValue::U64(1).string_to_bytes() {
        Err(LayoutError::DataValueExportFailed(m)) => assert_eq!(m, "String expected for string type."),
        other => panic!("unexpected {:?}", other),
    }
}
