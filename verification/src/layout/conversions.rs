//! Conversion of a resolved value into the bytes of a scalar type.

use super::entry::ScalarType;
use super::errors::{LayoutError, LayoutErrorView};
use super::ieee754::{
    f32_is_finite,
    f64_cast_saturating,
    f64_integral,
    f64_is_finite,
    f64_is_integral,
    f64_to_f32,
    f64_to_f32_bits,
    f64_to_int_saturating,
    f64_trunc,
    f64_truncate,
    int_survives_float,
    int_to_f32_bits,
    int_to_f64_bits,
    nat_survives_float,
    nat_to_float_bits_exec,
    TWO_POW_52,
    TWO_POW_63,
};
use super::settings::Endianness;
use super::text::{decimal, push_decimal, push_signed_decimal, signed_decimal};
use super::value::{DataValue, DataValueView};
use vstd::arithmetic::div_mod::{
    lemma_div_denominator,
    lemma_mod_multiples_vanish,
    lemma_small_mod,
};
use vstd::arithmetic::power2::{lemma2_to64, lemma_pow2_adds, lemma_pow2_pos, pow2};
use vstd::prelude::*;
use vstd::string::StringExecFns;

verus! {

/// The number of values that `width` bytes can hold.
pub open spec fn modulus(width: nat) -> int {
    if width == 1 {
        0x100
    } else if width == 2 {
        0x1_0000
    } else if width == 4 {
        0x1_0000_0000
    } else {
        0x1_0000_0000_0000_0000
    }
}

/// Byte `k` of `pattern`, counted from the least significant one.
pub open spec fn byte_at(pattern: nat, k: nat) -> u8 {
    ((pattern / pow2(8 * k)) % 256) as u8
}

/// The `width` bytes of `pattern` in the given byte order.
pub open spec fn endian_bytes(pattern: nat, width: nat, endianness: Endianness) -> Seq<u8> {
    Seq::new(
        width,
        |j: int|
            match endianness {
                Endianness::Little => byte_at(pattern, j as nat),
                Endianness::Big => byte_at(pattern, (width - 1 - j) as nat),
            },
    )
}

pub open spec fn string_to_scalar_message() -> Seq<char> {
    "Cannot convert string to scalar type."@
}

pub open spec fn negative_to_unsigned_message() -> Seq<char> {
    "negative integer cannot convert to unsigned in strict mode"@
}

pub open spec fn non_finite_to_integer_message() -> Seq<char> {
    "non-finite float cannot convert to integer in strict mode"@
}

pub open spec fn fractional_to_integer_message() -> Seq<char> {
    "float to integer conversion not allowed unless value is an exact integer"@
}

pub open spec fn non_finite_message() -> Seq<char> {
    "non-finite float not allowed in strict mode"@
}

pub open spec fn lossy_integer_message() -> Seq<char> {
    "lossy integer to float conversion not allowed in strict mode"@
}

pub open spec fn unsigned_range_message(v: u64, ty: ScalarType) -> Seq<char> {
    "u64 value "@ + decimal(v as nat) + " out of range for "@ + ty.name()
}

pub open spec fn signed_range_message(v: i64, ty: ScalarType) -> Seq<char> {
    "i64 value "@ + signed_decimal(v as int) + " out of range for "@ + ty.name()
}

pub open spec fn float_range_message(shown: Seq<char>, ty: ScalarType) -> Seq<char> {
    "float value "@ + shown + " out of range for "@ + ty.name()
}

/// The bit pattern of `value` after a plain cast to `ty`: an integer is cut
/// to the width of the type, a float goes toward zero and is held inside the
/// range of the type, and a cast to a float rounds to nearest.
pub open spec fn lossy_pattern(value: DataValueView, ty: ScalarType) -> Result<nat, Seq<char>> {
    match value {
        DataValueView::Str(_) => Err(string_to_scalar_message()),
        DataValueView::U64(v) => Ok(
            match ty {
                ScalarType::F32 => int_to_f32_bits(v as int) as nat,
                ScalarType::F64 => int_to_f64_bits(v as int) as nat,
                _ => (v as int % modulus(ty.width())) as nat,
            },
        ),
        DataValueView::I64(v) => Ok(
            match ty {
                ScalarType::F32 => int_to_f32_bits(v as int) as nat,
                ScalarType::F64 => int_to_f64_bits(v as int) as nat,
                _ => (v as int % modulus(ty.width())) as nat,
            },
        ),
        DataValueView::F64(bits, _) => Ok(
            match ty {
                ScalarType::F32 => f64_to_f32_bits(bits) as nat,
                ScalarType::F64 => bits as nat,
                _ => (f64_to_int_saturating(bits, ty.min_value(), ty.max_value()) % modulus(
                    ty.width(),
                )) as nat,
            },
        ),
    }
}

/// The bit pattern of `value` in `ty` where nothing is lost on the way, else
/// the reason why the conversion is refused.
pub open spec fn strict_pattern(value: DataValueView, ty: ScalarType) -> Result<nat, Seq<char>> {
    match value {
        DataValueView::Str(_) => Err(string_to_scalar_message()),
        DataValueView::U64(v) => if ty.is_float() {
            if !int_survives_float(v as int, precision(ty), 0, u64::MAX as int) {
                Err(lossy_integer_message())
            } else if ty == ScalarType::F32 {
                Ok(int_to_f32_bits(v as int) as nat)
            } else {
                Ok(int_to_f64_bits(v as int) as nat)
            }
        } else if v > ty.max_value() {
            Err(unsigned_range_message(v, ty))
        } else {
            Ok(v as nat)
        },
        DataValueView::I64(v) => if ty.is_float() {
            if !int_survives_float(v as int, precision(ty), i64::MIN as int, i64::MAX as int) {
                Err(lossy_integer_message())
            } else if ty == ScalarType::F32 {
                Ok(int_to_f32_bits(v as int) as nat)
            } else {
                Ok(int_to_f64_bits(v as int) as nat)
            }
        } else if !ty.is_signed() && v < 0 {
            Err(negative_to_unsigned_message())
        } else if v < ty.min_value() || v > ty.max_value() {
            Err(signed_range_message(v, ty))
        } else {
            Ok((v as int % modulus(ty.width())) as nat)
        },
        DataValueView::F64(bits, shown) => if ty == ScalarType::F64 {
            Ok(bits as nat)
        } else if ty == ScalarType::F32 {
            if !f64_is_finite(bits) {
                Err(non_finite_message())
            } else if !f32_is_finite(f64_to_f32_bits(bits)) {
                Err(float_range_message(shown, ty))
            } else {
                Ok(f64_to_f32_bits(bits) as nat)
            }
        } else if !f64_is_finite(bits) {
            Err(non_finite_to_integer_message())
        } else if !f64_is_integral(bits) {
            Err(fractional_to_integer_message())
        } else if f64_trunc(bits) < ty.min_value() || f64_trunc(bits) > ty.max_value() {
            Err(float_range_message(shown, ty))
        } else {
            Ok((f64_trunc(bits) % modulus(ty.width())) as nat)
        },
    }
}

/// The bytes that `value` gives in a field of type `ty`, or the error that
/// refuses it.
pub open spec fn converted_bytes(
    value: DataValueView,
    ty: ScalarType,
    endianness: Endianness,
    strict: bool,
) -> Result<Seq<u8>, LayoutErrorView> {
    let pattern = if strict {
        strict_pattern(value, ty)
    } else {
        lossy_pattern(value, ty)
    };
    match pattern {
        Ok(p) => Ok(endian_bytes(p, ty.width(), endianness)),
        Err(m) => Err(LayoutErrorView::DataValueExportFailed(m)),
    }
}

/// Every conversion that succeeds gives as many bytes as the type is wide.
pub proof fn lemma_converted_bytes_len(
    value: DataValueView,
    ty: ScalarType,
    endianness: Endianness,
    strict: bool,
)
    ensures
        converted_bytes(value, ty, endianness, strict) matches Ok(bytes) ==> bytes.len()
            == ty.width(),
{
}

/// The `width` bytes of `pattern` in the given byte order.
pub fn pattern_bytes(pattern: u64, width: usize, endianness: &Endianness) -> (bytes: Vec<u8>)
    requires
        width <= 8,
    ensures
        bytes@ == endian_bytes(pattern as nat, width as nat, *endianness),
{
    let mut little: Vec<u8> = Vec::new();
    let mut rest: u64 = pattern;
    let mut i: usize = 0;
    proof {
        lemma2_to64();
        assert(pattern as nat / pow2(8 * 0 as nat) == pattern);
    }
    while i < width
        invariant
            i <= width <= 8,
            rest == pattern as nat / pow2(8 * i as nat),
            little@ == Seq::new(i as nat, |j: int| byte_at(pattern as nat, j as nat)),
        decreases width - i,
    {
        proof {
            lemma2_to64();
            lemma_pow2_pos(8 * i as nat);
            lemma_pow2_adds(8 * i as nat, 8);
            lemma_div_denominator(pattern as int, pow2(8 * i as nat) as int, 256);
            assert(8 * i as nat + 8 == 8 * (i + 1) as nat);
        }
        little.push((rest % 256) as u8);
        rest = rest / 256;
        i = i + 1;
        assert(little@ =~= Seq::new(i as nat, |j: int| byte_at(pattern as nat, j as nat)));
    }
    match endianness {
        Endianness::Little => {
            assert(little@ =~= endian_bytes(pattern as nat, width as nat, *endianness));
            little
        },
        Endianness::Big => {
            let mut big: Vec<u8> = Vec::new();
            let mut j: usize = 0;
            while j < width
                invariant
                    j <= width,
                    little@.len() == width,
                    little@ == Seq::new(width as nat, |k: int| byte_at(pattern as nat, k as nat)),
                    big@ == Seq::new(
                        j as nat,
                        |k: int| byte_at(pattern as nat, (width - 1 - k) as nat),
                    ),
                decreases width - j,
            {
                big.push(little[width - 1 - j]);
                j = j + 1;
                assert(big@ =~= Seq::new(
                    j as nat,
                    |k: int| byte_at(pattern as nat, (width - 1 - k) as nat),
                ));
            }
            assert(big@ =~= endian_bytes(pattern as nat, width as nat, *endianness));
            big
        },
    }
}

/// The pattern that the integer `v` leaves in `width` bytes.
pub fn pattern_of(v: i128, width: usize) -> (p: u64)
    requires
        -0x8000_0000_0000_0000 <= v <= 0xFFFF_FFFF_FFFF_FFFF,
        width == 1 || width == 2 || width == 4 || width == 8,
    ensures
        p == v as int % modulus(width as nat),
{
    let whole: u64 = if v >= 0 {
        v as u64
    } else {
        (v + 0x1_0000_0000_0000_0000) as u64
    };
    proof {
        let lift: int = if v >= 0 {
            0
        } else {
            1
        };
        assert(whole == 0x1_0000_0000_0000_0000 * lift + v);
        lemma_mod_multiples_vanish(lift * 0x100_0000_0000_0000, v as int, 0x100);
        lemma_mod_multiples_vanish(lift * 0x1_0000_0000_0000, v as int, 0x1_0000);
        lemma_mod_multiples_vanish(lift * 0x1_0000_0000, v as int, 0x1_0000_0000);
        lemma_mod_multiples_vanish(lift, v as int, 0x1_0000_0000_0000_0000);
        lemma_small_mod(whole as nat, 0x1_0000_0000_0000_0000);
    }
    if width == 1 {
        whole % 0x100
    } else if width == 2 {
        whole % 0x1_0000
    } else if width == 4 {
        whole % 0x1_0000_0000
    } else {
        whole
    }
}

/// The smallest and the largest value of an integer type.
fn integer_range(ty: ScalarType) -> (range: (i128, i128))
    requires
        !ty.is_float(),
    ensures
        range.0 == ty.min_value(),
        range.1 == ty.max_value(),
{
    match ty {
        ScalarType::U8 => (0, 0xFF),
        ScalarType::U16 => (0, 0xFFFF),
        ScalarType::U32 => (0, 0xFFFF_FFFF),
        ScalarType::U64 => (0, 0xFFFF_FFFF_FFFF_FFFF),
        ScalarType::I8 => (-0x80, 0x7F),
        ScalarType::I16 => (-0x8000, 0x7FFF),
        ScalarType::I32 => (-0x8000_0000, 0x7FFF_FFFF),
        _ => (-0x8000_0000_0000_0000, 0x7FFF_FFFF_FFFF_FFFF),
    }
}

fn is_float_type(ty: ScalarType) -> (r: bool)
    ensures
        r == ty.is_float(),
{
    match ty {
        ScalarType::F32 | ScalarType::F64 => true,
        _ => false,
    }
}

/// The float pattern of the cast of an integer given by sign and magnitude.
fn integer_to_float(negative: bool, magnitude: u64, ty: ScalarType) -> (p: u64)
    requires
        ty.is_float(),
        magnitude <= 0x8000_0000_0000_0000 || !negative,
        negative ==> magnitude > 0,
    ensures
        ty == ScalarType::F32 ==> p == int_to_f32_bits(
            if negative {
                -(magnitude as int)
            } else {
                magnitude as int
            },
        ),
        ty == ScalarType::F64 ==> p == int_to_f64_bits(
            if negative {
                -(magnitude as int)
            } else {
                magnitude as int
            },
        ),
{
    match ty {
        ScalarType::F32 => {
            let bits = nat_to_float_bits_exec(magnitude, 24, 149);
            if negative {
                0x8000_0000 + bits
            } else {
                bits
            }
        },
        _ => {
            let bits = nat_to_float_bits_exec(magnitude, 53, 1074);
            if negative {
                TWO_POW_63 + bits
            } else {
                bits
            }
        },
    }
}

fn export_failed(message: String) -> (e: LayoutError)
    ensures
        e@ == LayoutErrorView::DataValueExportFailed(message@),
{
    LayoutError::DataValueExportFailed(message)
}

fn range_error_unsigned(v: u64, ty: ScalarType) -> (e: LayoutError)
    ensures
        e@ == LayoutErrorView::DataValueExportFailed(unsigned_range_message(v, ty)),
{
    let mut text = String::from_str("u64 value ");
    push_decimal(&mut text, v);
    text.append(" out of range for ");
    text.append(ty.label());
    export_failed(text)
}

fn range_error_signed(v: i64, ty: ScalarType) -> (e: LayoutError)
    ensures
        e@ == LayoutErrorView::DataValueExportFailed(signed_range_message(v, ty)),
{
    let mut text = String::from_str("i64 value ");
    push_signed_decimal(&mut text, v);
    text.append(" out of range for ");
    text.append(ty.label());
    export_failed(text)
}

fn range_error_float(shown: &String, ty: ScalarType) -> (e: LayoutError)
    ensures
        e@ == LayoutErrorView::DataValueExportFailed(float_range_message(shown@, ty)),
{
    let mut text = String::from_str("float value ");
    text.append(shown.as_str());
    text.append(" out of range for ");
    text.append(ty.label());
    export_failed(text)
}

/// The bit pattern of `value` after a plain cast to `ty`.
pub fn convert_lossy(value: &DataValue, ty: ScalarType) -> (r: Result<u64, LayoutError>)
    ensures
        match r {
            Ok(p) => lossy_pattern(value@, ty) == Ok::<nat, Seq<char>>(p as nat),
            Err(e) => lossy_pattern(value@, ty) matches Err(m) && e@
                == LayoutErrorView::DataValueExportFailed(m),
        },
{
    let width = ty.size_bytes();
    match value {
        DataValue::Str(_) => Err(
            export_failed(String::from_str("Cannot convert string to scalar type.")),
        ),
        DataValue::U64(v) => {
            if is_float_type(ty) {
                Ok(integer_to_float(false, *v, ty))
            } else {
                Ok(pattern_of(*v as i128, width))
            }
        },
        DataValue::I64(v) => {
            if is_float_type(ty) {
                if *v < 0 {
                    Ok(integer_to_float(true, (-(*v as i128)) as u64, ty))
                } else {
                    Ok(integer_to_float(false, *v as u64, ty))
                }
            } else {
                Ok(pattern_of(*v as i128, width))
            }
        },
        DataValue::F64(bits, _) => {
            match ty {
                ScalarType::F32 => Ok(f64_to_f32(*bits) as u64),
                ScalarType::F64 => Ok(*bits),
                _ => {
                    let (lo, hi) = integer_range(ty);
                    Ok(pattern_of(f64_cast_saturating(*bits, lo, hi), width))
                },
            }
        },
    }
}

/// The digits of the significand of a float type.
pub open spec fn precision(ty: ScalarType) -> nat {
    if ty == ScalarType::F32 {
        24
    } else {
        53
    }
}

/// Whether an integer given by sign and magnitude comes back unchanged from
/// a cast to the float type `ty` and back to its own type.
fn integer_survives(negative: bool, magnitude: u64, ty: ScalarType, signed: bool) -> (r: bool)
    requires
        ty.is_float(),
        negative ==> signed && 0 < magnitude <= 0x8000_0000_0000_0000,
        signed && !negative ==> magnitude <= 0x7FFF_FFFF_FFFF_FFFF,
    ensures
        r == int_survives_float(
            if negative {
                -(magnitude as int)
            } else {
                magnitude as int
            },
            precision(ty),
            if signed {
                i64::MIN as int
            } else {
                0
            },
            if signed {
                i64::MAX as int
            } else {
                u64::MAX as int
            },
        ),
{
    let p: u32 = match ty {
        ScalarType::F32 => 24,
        _ => 53,
    };
    if negative {
        nat_survives_float(magnitude, p, 0x8000_0000_0000_0000)
    } else if signed {
        nat_survives_float(magnitude, p, 0x7FFF_FFFF_FFFF_FFFF)
    } else {
        nat_survives_float(magnitude, p, u64::MAX)
    }
}

/// The bit pattern of `value` in `ty` where nothing is lost on the way.
pub fn convert_strict(value: &DataValue, ty: ScalarType) -> (r: Result<u64, LayoutError>)
    ensures
        match r {
            Ok(p) => strict_pattern(value@, ty) == Ok::<nat, Seq<char>>(p as nat),
            Err(e) => strict_pattern(value@, ty) matches Err(m) && e@
                == LayoutErrorView::DataValueExportFailed(m),
        },
{
    let width = ty.size_bytes();
    match value {
        DataValue::Str(_) => Err(
            export_failed(String::from_str("Cannot convert string to scalar type.")),
        ),
        DataValue::U64(v) => {
            if is_float_type(ty) {
                if !integer_survives(false, *v, ty, false) {
                    Err(
                        export_failed(
                            String::from_str(
                                "lossy integer to float conversion not allowed in strict mode",
                            ),
                        ),
                    )
                } else {
                    Ok(integer_to_float(false, *v, ty))
                }
            } else {
                let (_, hi) = integer_range(ty);
                if *v as i128 > hi {
                    Err(range_error_unsigned(*v, ty))
                } else {
                    Ok(*v)
                }
            }
        },
        DataValue::I64(v) => {
            if is_float_type(ty) {
                let negative = *v < 0;
                let magnitude: u64 = if negative {
                    (-(*v as i128)) as u64
                } else {
                    *v as u64
                };
                if !integer_survives(negative, magnitude, ty, true) {
                    Err(
                        export_failed(
                            String::from_str(
                                "lossy integer to float conversion not allowed in strict mode",
                            ),
                        ),
                    )
                } else {
                    Ok(integer_to_float(negative, magnitude, ty))
                }
            } else {
                let (lo, hi) = integer_range(ty);
                if lo == 0 && *v < 0 {
                    Err(
                        export_failed(
                            String::from_str(
                                "negative integer cannot convert to unsigned in strict mode",
                            ),
                        ),
                    )
                } else if (*v as i128) < lo || *v as i128 > hi {
                    Err(range_error_signed(*v, ty))
                } else {
                    Ok(pattern_of(*v as i128, width))
                }
            }
        },
        DataValue::F64(bits, shown) => {
            match ty {
                ScalarType::F64 => Ok(*bits),
                ScalarType::F32 => {
                    let finite = (*bits / TWO_POW_52) % 2048 != 2047;
                    if !finite {
                        Err(
                            export_failed(
                                String::from_str("non-finite float not allowed in strict mode"),
                            ),
                        )
                    } else {
                        let narrow = f64_to_f32(*bits);
                        if (narrow / 0x80_0000) % 256 == 255 {
                            Err(range_error_float(shown, ty))
                        } else {
                            Ok(narrow as u64)
                        }
                    }
                },
                _ => {
                    let finite = (*bits / TWO_POW_52) % 2048 != 2047;
                    if !finite {
                        Err(
                            export_failed(
                                String::from_str(
                                    "non-finite float cannot convert to integer in strict mode",
                                ),
                            ),
                        )
                    } else if !f64_integral(*bits) {
                        Err(
                            export_failed(
                                String::from_str(
                                    "float to integer conversion not allowed unless value is an exact integer",
                                ),
                            ),
                        )
                    } else {
                        match f64_truncate(*bits) {
                            None => Err(range_error_float(shown, ty)),
                            Some(magnitude) => {
                                let (lo, hi) = integer_range(ty);
                                let whole: i128 = if *bits >= TWO_POW_63 {
                                    -(magnitude as i128)
                                } else {
                                    magnitude as i128
                                };
                                if whole < lo || whole > hi {
                                    Err(range_error_float(shown, ty))
                                } else {
                                    Ok(pattern_of(whole, width))
                                }
                            },
                        }
                    }
                },
            }
        },
    }
}

/// Converts `value` to the bytes of a field of type `scalar_type`, in the
/// given byte order. With `strict`, a conversion that would lose anything is
/// refused; without it, the value is cast as `as` casts. A string is never a
/// scalar.
pub fn convert_value_to_bytes(
    value: &DataValue,
    scalar_type: ScalarType,
    endianness: &Endianness,
    strict: bool,
) -> (r: Result<Vec<u8>, LayoutError>)
    ensures
        match r {
            Ok(bytes) => converted_bytes(value@, scalar_type, *endianness, strict) == Ok::<
                Seq<u8>,
                LayoutErrorView,
            >(bytes@),
            Err(e) => converted_bytes(value@, scalar_type, *endianness, strict) == Err::<
                Seq<u8>,
                LayoutErrorView,
            >(e@),
        },
{
    let pattern = if strict {
        convert_strict(value, scalar_type)
    } else {
        convert_lossy(value, scalar_type)
    };
    match pattern {
        Ok(p) => Ok(pattern_bytes(p, scalar_type.size_bytes(), endianness)),
        Err(e) => Err(e),
    }
}

/// A number that a value can be converted to without any loss.
pub trait TryFromStrict<T>: Sized {
    /// The number that `value` is, or the error that refuses it.
    spec fn strictly(value: T) -> Result<Self, LayoutErrorView>;

    /// Converts `value`, refusing every conversion that would lose
    /// something.
    fn try_from_strict(value: T) -> (r: Result<Self, LayoutError>)
        ensures
            match r {
                Ok(number) => Self::strictly(value) == Ok::<Self, LayoutErrorView>(number),
                Err(e) => Self::strictly(value) == Err::<Self, LayoutErrorView>(e@),
            },
    ;
}

impl<'a> TryFromStrict<&'a DataValue> for u8 {
    open spec fn strictly(value: &'a DataValue) -> Result<u8, LayoutErrorView> {
        match strict_pattern(value@, ScalarType::U8) {
            Ok(p) => Ok(p as u8),
            Err(m) => Err(LayoutErrorView::DataValueExportFailed(m)),
        }
    }

    fn try_from_strict(value: &'a DataValue) -> (r: Result<u8, LayoutError>) {
        match convert_strict(value, ScalarType::U8) {
            Ok(p) => Ok(p as u8),
            Err(e) => Err(e),
        }
    }
}

impl<'a> TryFromStrict<&'a DataValue> for u16 {
    open spec fn strictly(value: &'a DataValue) -> Result<u16, LayoutErrorView> {
        match strict_pattern(value@, ScalarType::U16) {
            Ok(p) => Ok(p as u16),
            Err(m) => Err(LayoutErrorView::DataValueExportFailed(m)),
        }
    }

    fn try_from_strict(value: &'a DataValue) -> (r: Result<u16, LayoutError>) {
        match convert_strict(value, ScalarType::U16) {
            Ok(p) => Ok(p as u16),
            Err(e) => Err(e),
        }
    }
}

impl<'a> TryFromStrict<&'a DataValue> for u32 {
    open spec fn strictly(value: &'a DataValue) -> Result<u32, LayoutErrorView> {
        match strict_pattern(value@, ScalarType::U32) {
            Ok(p) => Ok(p as u32),
            Err(m) => Err(LayoutErrorView::DataValueExportFailed(m)),
        }
    }

    fn try_from_strict(value: &'a DataValue) -> (r: Result<u32, LayoutError>) {
        match convert_strict(value, ScalarType::U32) {
            Ok(p) => Ok(p as u32),
            Err(e) => Err(e),
        }
    }
}

impl<'a> TryFromStrict<&'a DataValue> for u64 {
    open spec fn strictly(value: &'a DataValue) -> Result<u64, LayoutErrorView> {
        match strict_pattern(value@, ScalarType::U64) {
            Ok(p) => Ok(p as u64),
            Err(m) => Err(LayoutErrorView::DataValueExportFailed(m)),
        }
    }

    fn try_from_strict(value: &'a DataValue) -> (r: Result<u64, LayoutError>) {
        match convert_strict(value, ScalarType::U64) {
            Ok(p) => Ok(p as u64),
            Err(e) => Err(e),
        }
    }
}

impl<'a> TryFromStrict<&'a DataValue> for i8 {
    open spec fn strictly(value: &'a DataValue) -> Result<i8, LayoutErrorView> {
        match strict_pattern(value@, ScalarType::I8) {
            Ok(p) => Ok((if p >= 0x80 { p - 0x100 } else { p as int }) as i8),
            Err(m) => Err(LayoutErrorView::DataValueExportFailed(m)),
        }
    }

    fn try_from_strict(value: &'a DataValue) -> (r: Result<i8, LayoutError>) {
        match convert_strict(value, ScalarType::I8) {
            Ok(p) => Ok(
                if p >= 0x80 {
                    (p as i128 - 0x100) as i8
                } else {
                    p as i8
                },
            ),
            Err(e) => Err(e),
        }
    }
}

impl<'a> TryFromStrict<&'a DataValue> for i16 {
    open spec fn strictly(value: &'a DataValue) -> Result<i16, LayoutErrorView> {
        match strict_pattern(value@, ScalarType::I16) {
            Ok(p) => Ok((if p >= 0x8000 { p - 0x1_0000 } else { p as int }) as i16),
            Err(m) => Err(LayoutErrorView::DataValueExportFailed(m)),
        }
    }

    fn try_from_strict(value: &'a DataValue) -> (r: Result<i16, LayoutError>) {
        match convert_strict(value, ScalarType::I16) {
            Ok(p) => Ok(
                if p >= 0x8000 {
                    (p as i128 - 0x1_0000) as i16
                } else {
                    p as i16
                },
            ),
            Err(e) => Err(e),
        }
    }
}

impl<'a> TryFromStrict<&'a DataValue> for i32 {
    open spec fn strictly(value: &'a DataValue) -> Result<i32, LayoutErrorView> {
        match strict_pattern(value@, ScalarType::I32) {
            Ok(p) => Ok((if p >= 0x8000_0000 { p - 0x1_0000_0000 } else { p as int }) as i32),
            Err(m) => Err(LayoutErrorView::DataValueExportFailed(m)),
        }
    }

    fn try_from_strict(value: &'a DataValue) -> (r: Result<i32, LayoutError>) {
        match convert_strict(value, ScalarType::I32) {
            Ok(p) => Ok(
                if p >= 0x8000_0000 {
                    (p as i128 - 0x1_0000_0000) as i32
                } else {
                    p as i32
                },
            ),
            Err(e) => Err(e),
        }
    }
}

impl<'a> TryFromStrict<&'a DataValue> for i64 {
    open spec fn strictly(value: &'a DataValue) -> Result<i64, LayoutErrorView> {
        match strict_pattern(value@, ScalarType::I64) {
            Ok(p) => Ok((if p >= 0x8000_0000_0000_0000 { p - 0x1_0000_0000_0000_0000 } else { p as int }) as i64),
            Err(m) => Err(LayoutErrorView::DataValueExportFailed(m)),
        }
    }

    fn try_from_strict(value: &'a DataValue) -> (r: Result<i64, LayoutError>) {
        match convert_strict(value, ScalarType::I64) {
            Ok(p) => Ok(
                if p >= 0x8000_0000_0000_0000 {
                    (p as i128 - 0x1_0000_0000_0000_0000) as i64
                } else {
                    p as i64
                },
            ),
            Err(e) => Err(e),
        }
    }
}

} // verus!
