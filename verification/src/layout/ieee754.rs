//! IEEE 754 binary64 and binary32 numbers as bit patterns, with the casts
//! between them and the integers worked out in integer arithmetic.

use vstd::arithmetic::div_mod::{lemma_basic_div, lemma_fundamental_div_mod, lemma_small_mod};
use vstd::arithmetic::power2::{
    lemma2_to64,
    lemma2_to64_rest,
    lemma_pow2_adds,
    lemma_pow2_pos,
    lemma_pow2_strictly_increases,
    lemma_pow2_unfold,
    pow2,
};
use vstd::prelude::*;

verus! {

pub const TWO_POW_23: u64 = 0x80_0000;

pub const TWO_POW_52: u64 = 0x10_0000_0000_0000;

pub const TWO_POW_63: u64 = 0x8000_0000_0000_0000;

/// The number of binary digits of `v`: 0 for 0, else the `n` with
/// `2^(n-1) <= v < 2^n`.
pub open spec fn bit_length(v: nat) -> nat
    decreases v,
{
    if v == 0 {
        0
    } else {
        1 + bit_length(v / 2)
    }
}

/// `v / 2^s` rounded to the nearest integer, a tie going to the even one.
pub open spec fn round_half_even(v: nat, s: nat) -> nat {
    let d = pow2(s);
    let q = v / d;
    let r = v % d;
    if 2 * r > d || (2 * r == d && q % 2 == 1) {
        q + 1
    } else {
        q
    }
}

/// `x` held between `lo` and `hi`.
pub open spec fn clamp(x: int, lo: int, hi: int) -> int {
    if x < lo {
        lo
    } else if x > hi {
        hi
    } else {
        x
    }
}

/// The sign bit of a binary64 pattern.
pub open spec fn f64_sign(bits: u64) -> bool {
    bits >= TWO_POW_63
}

/// The biased exponent field of a binary64 pattern.
pub open spec fn f64_exponent(bits: u64) -> nat {
    ((bits / TWO_POW_52) % 2048) as nat
}

/// The fraction field of a binary64 pattern.
pub open spec fn f64_fraction(bits: u64) -> nat {
    (bits % TWO_POW_52) as nat
}

pub open spec fn f64_is_nan(bits: u64) -> bool {
    f64_exponent(bits) == 2047 && f64_fraction(bits) != 0
}

pub open spec fn f64_is_infinite(bits: u64) -> bool {
    f64_exponent(bits) == 2047 && f64_fraction(bits) == 0
}

pub open spec fn f64_is_finite(bits: u64) -> bool {
    f64_exponent(bits) != 2047
}

/// The significand `m` of a finite binary64: its magnitude is
/// `m * 2^f64_scale(bits)`.
pub open spec fn f64_significand(bits: u64) -> nat {
    if f64_exponent(bits) == 0 {
        f64_fraction(bits)
    } else {
        TWO_POW_52 as nat + f64_fraction(bits)
    }
}

/// The power of two that scales the significand of a finite binary64.
pub open spec fn f64_scale(bits: u64) -> int {
    if f64_exponent(bits) == 0 {
        -1074
    } else {
        f64_exponent(bits) - 1075
    }
}

/// The magnitude of a finite binary64 without its fractional part.
pub open spec fn f64_trunc_magnitude(bits: u64) -> nat {
    let m = f64_significand(bits);
    let e = f64_scale(bits);
    if e >= 0 {
        m * pow2(e as nat)
    } else {
        m / pow2((-e) as nat)
    }
}

/// Whether a binary64 is finite and has no fractional part.
pub open spec fn f64_is_integral(bits: u64) -> bool {
    let m = f64_significand(bits);
    let e = f64_scale(bits);
    f64_is_finite(bits) && (e >= 0 || m % pow2((-e) as nat) == 0)
}

/// A finite binary64 rounded toward zero.
pub open spec fn f64_trunc(bits: u64) -> int {
    if f64_sign(bits) {
        -(f64_trunc_magnitude(bits) as int)
    } else {
        f64_trunc_magnitude(bits) as int
    }
}

/// The cast of a binary64 to an integer type with the range `lo..=hi`:
/// rounded toward zero, held inside the range, and 0 for a NaN.
pub open spec fn f64_to_int_saturating(bits: u64, lo: int, hi: int) -> int {
    if f64_is_nan(bits) {
        0
    } else if f64_is_infinite(bits) {
        if f64_sign(bits) {
            lo
        } else {
            hi
        }
    } else {
        clamp(f64_trunc(bits), lo, hi)
    }
}

pub proof fn lemma_bit_length_bounds(v: nat)
    requires
        v > 0,
    ensures
        bit_length(v) >= 1,
        pow2((bit_length(v) - 1) as nat) <= v < pow2(bit_length(v)),
    decreases v,
{
    lemma2_to64();
    if v == 1 {
        assert(bit_length(1) == 1 + bit_length(0));
    } else {
        lemma_bit_length_bounds(v / 2);
        let n = bit_length(v / 2);
        lemma_pow2_unfold(n);
        lemma_pow2_unfold(n + 1);
    }
}

pub proof fn lemma_bit_length_unique(v: nat, n: nat)
    requires
        n >= 1,
        pow2((n - 1) as nat) <= v < pow2(n),
    ensures
        bit_length(v) == n,
{
    lemma_pow2_pos((n - 1) as nat);
    lemma_bit_length_bounds(v);
    let b = bit_length(v);
    if b < n {
        if b < n - 1 {
            lemma_pow2_strictly_increases(b, (n - 1) as nat);
        }
    } else if b > n {
        if b - 1 > n {
            lemma_pow2_strictly_increases(n, (b - 1) as nat);
        }
    }
}

/// `2^k` as a machine integer.
pub fn pow2_u64(k: u32) -> (p: u64)
    requires
        k < 64,
    ensures
        p == pow2(k as nat),
        p > 0,
{
    proof {
        vstd::bits::lemma_u64_pow2_no_overflow(k as nat);
        vstd::bits::lemma_u64_shl_is_mul(1, k as u64);
    }
    1u64 << k
}

/// The number of binary digits of `v`.
pub fn bit_length_u64(v: u64) -> (n: u32)
    ensures
        n == bit_length(v as nat),
        n <= 64,
{
    let mut n: u32 = 0;
    let mut rest: u64 = v;
    proof {
        lemma2_to64_rest();
    }
    while rest > 0
        invariant
            bit_length(v as nat) == n + bit_length(rest as nat),
            n <= 64,
            n < 64 ==> rest < pow2((64 - n) as nat),
            n == 64 ==> rest == 0,
        decreases rest,
    {
        proof {
            lemma2_to64();
            lemma2_to64_rest();
            lemma_pow2_unfold((64 - n) as nat);
        }
        rest = rest / 2;
        n = n + 1;
    }
    n
}

/// `v / 2^s` rounded to the nearest integer, a tie going to the even one.
pub fn round_half_even_u64(v: u64, s: u32) -> (r: u64)
    requires
        s < 63,
    ensures
        r == round_half_even(v as nat, s as nat),
{
    let d = pow2_u64(s);
    let q = v / d;
    let r = v % d;
    proof {
        lemma2_to64();
        lemma2_to64_rest();
        if s < 62 {
            lemma_pow2_strictly_increases(s as nat, 62);
        }
        if s > 0 {
            lemma_pow2_strictly_increases(0, s as nat);
            lemma_fundamental_div_mod(v as int, d as int);
            assert(q * d <= v) by (nonlinear_arith)
                requires
                    v == d * q + r,
                    r >= 0,
            ;
            assert(q < 0x8000_0000_0000_0000) by (nonlinear_arith)
                requires
                    q * d <= v,
                    d >= 2,
                    v <= 0xFFFF_FFFF_FFFF_FFFF,
            ;
        } else {
            assert(r == 0);
        }
    }
    if 2 * r > d || (2 * r == d && q % 2 == 1) {
        q + 1
    } else {
        q
    }
}

/// The magnitude of a finite binary64 without its fractional part, or `None`
/// where it does not fit 64 bits.
pub fn f64_truncate(bits: u64) -> (r: Option<u64>)
    requires
        f64_is_finite(bits),
    ensures
        match r {
            Some(m) => m == f64_trunc_magnitude(bits),
            None => f64_trunc_magnitude(bits) > u64::MAX,
        },
{
    let exp = (bits / TWO_POW_52) % 2048;
    let frac = bits % TWO_POW_52;
    proof {
        lemma2_to64();
        lemma2_to64_rest();
    }
    if exp == 0 {
        proof {
            lemma_pow2_strictly_increases(52, 1074);
            lemma_basic_div(frac as int, pow2(1074) as int);
        }
        return Some(0);
    }
    let m = TWO_POW_52 + frac;
    if exp >= 1075 {
        let e = exp - 1075;
        if e >= 12 {
            proof {
                if e > 12 {
                    lemma_pow2_strictly_increases(12, e as nat);
                }
                assert(m * pow2(e as nat) >= 0x10_0000_0000_0000 * 0x1000) by (nonlinear_arith)
                    requires
                        m >= 0x10_0000_0000_0000,
                        pow2(e as nat) >= 0x1000,
                ;
            }
            None
        } else {
            let scale = pow2_u64(e as u32);
            proof {
                if e < 11 {
                    lemma_pow2_strictly_increases(e as nat, 11);
                }
                assert(m * scale <= 0x1F_FFFF_FFFF_FFFF * 0x800) by (nonlinear_arith)
                    requires
                        m <= 0x1F_FFFF_FFFF_FFFF,
                        scale <= 0x800,
                ;
            }
            Some(m * scale)
        }
    } else {
        let k = 1075 - exp;
        if k >= 53 {
            proof {
                if k > 53 {
                    lemma_pow2_strictly_increases(53, k as nat);
                }
                lemma_basic_div(m as int, pow2(k as nat) as int);
            }
            Some(0)
        } else {
            Some(m / pow2_u64(k as u32))
        }
    }
}

/// Whether a binary64 is finite and has no fractional part.
pub fn f64_integral(bits: u64) -> (r: bool)
    ensures
        r == f64_is_integral(bits),
{
    let exp = (bits / TWO_POW_52) % 2048;
    let frac = bits % TWO_POW_52;
    proof {
        lemma2_to64();
        lemma2_to64_rest();
    }
    if exp == 2047 {
        false
    } else if exp == 0 {
        proof {
            lemma_pow2_strictly_increases(52, 1074);
            lemma_small_mod(frac as nat, pow2(1074));
        }
        frac == 0
    } else if exp >= 1075 {
        true
    } else {
        let m = TWO_POW_52 + frac;
        let k = 1075 - exp;
        if k >= 53 {
            proof {
                if k > 53 {
                    lemma_pow2_strictly_increases(53, k as nat);
                }
                lemma_small_mod(m as nat, pow2(k as nat));
            }
            false
        } else {
            m % pow2_u64(k as u32) == 0
        }
    }
}

/// Casts a binary64 to an integer type with the range `lo..=hi`, as `as`
/// does: toward zero, held inside the range, 0 for a NaN.
pub fn f64_cast_saturating(bits: u64, lo: i128, hi: i128) -> (r: i128)
    requires
        -0x8000_0000_0000_0000 <= lo <= 0 <= hi <= 0xFFFF_FFFF_FFFF_FFFF,
    ensures
        r == f64_to_int_saturating(bits, lo as int, hi as int),
        lo <= r <= hi,
{
    let exp = (bits / TWO_POW_52) % 2048;
    let frac = bits % TWO_POW_52;
    let negative = bits >= TWO_POW_63;
    if exp == 2047 {
        if frac != 0 {
            0
        } else if negative {
            lo
        } else {
            hi
        }
    } else {
        match f64_truncate(bits) {
            None => if negative {
                lo
            } else {
                hi
            },
            Some(m) => {
                let value: i128 = if negative {
                    -(m as i128)
                } else {
                    m as i128
                };
                if value < lo {
                    lo
                } else if value > hi {
                    hi
                } else {
                    value
                }
            },
        }
    }
}

/// The significand that `v > 0` gets in a format of `p` digits: `v` scaled
/// to `p` digits, rounded to nearest, ties to even.
pub open spec fn rounded_significand(v: nat, p: nat) -> nat {
    let n = bit_length(v);
    if n <= p {
        v * pow2((p - n) as nat)
    } else {
        round_half_even(v, (n - p) as nat)
    }
}

/// The integer that a float of `p` digits holds after `v` was cast to it.
pub open spec fn rounded_value(v: nat, p: nat) -> nat {
    let n = bit_length(v);
    if n <= p {
        v
    } else {
        round_half_even(v, (n - p) as nat) * pow2((n - p) as nat)
    }
}

/// The pattern of the float nearest to `v` in a format of `p` digits whose
/// smallest subnormal is `2^-floor`.
pub open spec fn nat_to_float_bits(v: nat, p: nat, floor: nat) -> nat {
    if v == 0 {
        0
    } else {
        ((bit_length(v) + floor - p) as nat) * pow2((p - 1) as nat) + rounded_significand(v, p)
    }
}

/// The binary64 pattern of the cast of the integer `v`.
pub open spec fn int_to_f64_bits(v: int) -> u64 {
    if v < 0 {
        (TWO_POW_63 + nat_to_float_bits((-v) as nat, 53, 1074)) as u64
    } else {
        nat_to_float_bits(v as nat, 53, 1074) as u64
    }
}

/// The binary32 pattern of the cast of the integer `v`.
pub open spec fn int_to_f32_bits(v: int) -> u32 {
    if v < 0 {
        (0x8000_0000 + nat_to_float_bits((-v) as nat, 24, 149)) as u32
    } else {
        nat_to_float_bits(v as nat, 24, 149) as u32
    }
}

/// Whether the integer `v` comes back from a cast to a float of `p` digits
/// and a cast back to its own type, whose range is `lo..=hi`.
pub open spec fn int_survives_float(v: int, p: nat, lo: int, hi: int) -> bool {
    if v < 0 {
        clamp(-(rounded_value((-v) as nat, p) as int), lo, hi) == v
    } else {
        clamp(rounded_value(v as nat, p) as int, lo, hi) == v
    }
}

proof fn lemma_div_pow2_bound(v: nat, n: nat, s: nat)
    requires
        v < pow2(n),
        s <= n,
    ensures
        v / pow2(s) < pow2((n - s) as nat),
{
    lemma_pow2_adds(s, (n - s) as nat);
    lemma_pow2_pos(s);
    let d = pow2(s) as int;
    let t = pow2((n - s) as nat) as int;
    lemma_fundamental_div_mod(v as int, d);
    let q = v as int / d;
    assert(q < t) by (nonlinear_arith)
        requires
            v as int == d * q + v as int % d,
            v as int % d >= 0,
            v < d * t,
            d > 0,
    ;
}

proof fn lemma_round_half_even_bounds(v: nat, n: nat, s: nat)
    requires
        1 <= s < n,
        pow2((n - 1) as nat) <= v < pow2(n),
    ensures
        pow2((n - s - 1) as nat) <= round_half_even(v, s) <= pow2((n - s) as nat),
        pow2((n - s - 1) as nat) <= v / pow2(s) < pow2((n - s) as nat),
{
    lemma_div_pow2_bound(v, n, s);
    lemma_pow2_pos(s);
    lemma_pow2_adds(s, (n - s - 1) as nat);
    let d = pow2(s) as int;
    let t = pow2((n - s - 1) as nat) as int;
    lemma_fundamental_div_mod(v as int, d);
    let q = v as int / d;
    assert(q >= t) by (nonlinear_arith)
        requires
            v as int == d * q + v as int % d,
            v as int % d < d,
            v >= d * t,
            d > 0,
    ;
}

/// The pattern of the float nearest to `v`, for binary64 (`p` 53, `floor`
/// 1074) or binary32 (`p` 24, `floor` 149).
pub fn nat_to_float_bits_exec(v: u64, p: u32, floor: u32) -> (bits: u64)
    requires
        (p == 53 && floor == 1074) || (p == 24 && floor == 149),
    ensures
        bits == nat_to_float_bits(v as nat, p as nat, floor as nat),
        p == 53 ==> bits < 0x7FF0_0000_0000_0000,
        p == 24 ==> bits < 0x7F80_0000,
{
    if v == 0 {
        return 0;
    }
    let n = bit_length_u64(v);
    let unit = pow2_u64(p - 1);
    proof {
        lemma2_to64();
        lemma2_to64_rest();
        lemma_bit_length_bounds(v as nat);
    }
    let m: u64 = if n <= p {
        let up = pow2_u64(p - n);
        proof {
            lemma_pow2_adds(n as nat, (p - n) as nat);
            assert(v * up < pow2(n as nat) * up) by (nonlinear_arith)
                requires
                    v < pow2(n as nat),
                    up > 0,
            ;
        }
        v * up
    } else {
        proof {
            lemma_round_half_even_bounds(v as nat, n as nat, (n - p) as nat);
        }
        round_half_even_u64(v, n - p)
    };
    let field: u64 = (n + floor - p) as u64;
    proof {
        let top: int = if p == 53 {
            1085
        } else {
            189
        };
        assert(field * unit <= top * unit) by (nonlinear_arith)
            requires
                field <= top,
                unit >= 0,
        ;
    }
    field * unit + m
}

/// Whether `v` comes back from a cast to a float of `p` digits and back to
/// an unsigned type whose largest value is `hi`.
pub fn nat_survives_float(v: u64, p: u32, hi: u64) -> (r: bool)
    requires
        p == 53 || p == 24,
    ensures
        r == (clamp(rounded_value(v as nat, p as nat) as int, 0, hi as int) == v),
{
    let n = bit_length_u64(v);
    if n <= p {
        v <= hi
    } else {
        let s = n - p;
        proof {
            lemma2_to64();
            lemma2_to64_rest();
            lemma_bit_length_bounds(v as nat);
            lemma_round_half_even_bounds(v as nat, n as nat, s as nat);
            lemma_pow2_adds(p as nat, s as nat);
            if n < 64 {
                lemma_pow2_strictly_increases(n as nat, 64);
            }
        }
        let m = round_half_even_u64(v, s);
        let d = pow2_u64(s);
        assert(m * d <= pow2(p as nat) * d) by (nonlinear_arith)
            requires
                m <= pow2(p as nat),
                d > 0,
        ;
        let rounded: u128 = (m as u128) * (d as u128);
        let held: u128 = if rounded > hi as u128 {
            hi as u128
        } else {
            rounded
        };
        held == v as u128
    }
}

/// The binary32 nearest to a binary64, as the narrowing cast gives it. A
/// normal result drops 29 digits of the significand, a subnormal one more;
/// rounding is to nearest, ties to even, and what is too large becomes an
/// infinity. A NaN stays a NaN with its sign and its leading payload digits.
pub open spec fn f64_to_f32_bits(bits: u64) -> u32 {
    let sign_bit: nat = if f64_sign(bits) {
        0x8000_0000
    } else {
        0
    };
    let exp = f64_exponent(bits);
    if f64_is_nan(bits) {
        (sign_bit + 0x7FC0_0000 + (f64_fraction(bits) / 0x2000_0000) % 0x40_0000) as u32
    } else if exp == 2047 {
        (sign_bit + 0x7F80_0000) as u32
    } else if exp == 0 {
        sign_bit as u32
    } else {
        let s: nat = if exp >= 897 {
            29
        } else {
            (926 - exp) as nat
        };
        let packed = (exp + s - 926) * TWO_POW_23 + round_half_even(f64_significand(bits), s);
        if packed > 0x7F80_0000 {
            (sign_bit + 0x7F80_0000) as u32
        } else {
            (sign_bit + packed) as u32
        }
    }
}

/// Whether a binary32 pattern is neither an infinity nor a NaN.
pub open spec fn f32_is_finite(bits: u32) -> bool {
    (bits / 0x80_0000) % 256 != 255
}

proof fn lemma_round_half_even_vanishes(m: nat, s: nat)
    requires
        m < pow2(53),
        s >= 54,
    ensures
        round_half_even(m, s) == 0,
{
    lemma_pow2_unfold(54);
    if s > 54 {
        lemma_pow2_strictly_increases(54, s);
    }
    lemma_basic_div(m as int, pow2(s) as int);
    lemma_small_mod(m, pow2(s));
}

/// Narrows a binary64 to the nearest binary32.
pub fn f64_to_f32(bits: u64) -> (r: u32)
    ensures
        r == f64_to_f32_bits(bits),
{
    let exp = (bits / TWO_POW_52) % 2048;
    let frac = bits % TWO_POW_52;
    let sign_bit: u64 = if bits >= TWO_POW_63 {
        0x8000_0000
    } else {
        0
    };
    proof {
        lemma2_to64();
        lemma2_to64_rest();
    }
    if exp == 2047 {
        if frac != 0 {
            (sign_bit + 0x7FC0_0000 + (frac / 0x2000_0000) % 0x40_0000) as u32
        } else {
            (sign_bit + 0x7F80_0000) as u32
        }
    } else if exp == 0 {
        sign_bit as u32
    } else {
        let m = TWO_POW_52 + frac;
        let s: u64 = if exp >= 897 {
            29
        } else {
            926 - exp
        };
        let kept: u64 = if s >= 54 {
            proof {
                lemma_round_half_even_vanishes(m as nat, s as nat);
            }
            0
        } else {
            proof {
                lemma_div_pow2_bound(m as nat, 53, s as nat);
                lemma_pow2_strictly_increases((53 - s) as nat, 25);
            }
            round_half_even_u64(m, s as u32)
        };
        let packed = (exp + s - 926) * TWO_POW_23 + kept;
        if packed > 0x7F80_0000 {
            (sign_bit + 0x7F80_0000) as u32
        } else {
            (sign_bit + packed) as u32
        }
    }
}

/// The quotient `n / d` rounded to the nearest integer, a tie going to the
/// even one.
pub open spec fn round_quotient(n: nat, d: nat) -> nat {
    let q = n / d;
    let r = n % d;
    if 2 * r > d || (2 * r == d && q % 2 == 1) {
        q + 1
    } else {
        q
    }
}

/// The pattern of the positive normal binary64 of the value
/// `significand * 2^scale`, where the significand has 53 digits; a
/// significand of `2^53` stands for the next power of two.
pub open spec fn f64_pack(significand: nat, scale: int) -> u64 {
    ((scale + 1074) * TWO_POW_52 + significand) as u64
}

/// Whether a pattern is that of a positive normal binary64.
pub open spec fn f64_is_positive_normal(bits: u64) -> bool {
    !f64_sign(bits) && 1 <= f64_exponent(bits) <= 2046
}

/// The quotient of two positive normal binary64 numbers, rounded to
/// nearest, ties to even, where it is a normal number again.
pub open spec fn f64_div_bits(x: u64, y: u64) -> u64 {
    let a = f64_significand(x);
    let b = f64_significand(y);
    let k: nat = if a >= b {
        52
    } else {
        53
    };
    f64_pack(round_quotient(a * pow2(k), b), f64_scale(x) - f64_scale(y) - k)
}

/// The product of two positive normal binary64 numbers, rounded to nearest,
/// ties to even, where it is a normal number again.
pub open spec fn f64_mul_bits(x: u64, y: u64) -> u64 {
    let p = f64_significand(x) * f64_significand(y);
    let s = (bit_length(p) - 53) as nat;
    f64_pack(round_half_even(p, s), f64_scale(x) + f64_scale(y) + s)
}

/// The binary64 pattern of 100.
pub const HUNDRED: u64 = 0x4059_0000_0000_0000;

/// `used` as a percentage of `allocated`, as binary64 arithmetic gives it:
/// both numbers are cast, divided, and the quotient is multiplied by 100.
/// The percentage of nothing allocated is 0.
pub open spec fn percentage_bits(used: nat, allocated: nat) -> u64 {
    if allocated == 0 || used == 0 {
        0
    } else {
        f64_mul_bits(
            f64_div_bits(
                nat_to_float_bits(used, 53, 1074) as u64,
                nat_to_float_bits(allocated, 53, 1074) as u64,
            ),
            HUNDRED,
        )
    }
}

/// The tenths of a positive normal binary64, rounded to nearest, ties to
/// even: the number as it is shown with one decimal.
pub open spec fn f64_tenths(bits: u64) -> nat {
    let m = f64_significand(bits) * 10;
    let e = f64_scale(bits);
    if e >= 0 {
        m * pow2(e as nat)
    } else {
        round_half_even(m, (-e) as nat)
    }
}

/// The number of binary digits of `v`.
pub fn bit_length_u128(v: u128) -> (n: u32)
    ensures
        n == bit_length(v as nat),
        n <= 128,
{
    let mut n: u32 = 0;
    let mut rest: u128 = v;
    proof {
        lemma2_to64();
    }
    while rest > 0
        invariant
            bit_length(v as nat) == n + bit_length(rest as nat),
            n <= 128,
            rest as nat * pow2(n as nat) <= v,
        decreases rest,
    {
        proof {
            lemma2_to64_rest();
            lemma_pow2_adds(64, 64);
            lemma_pow2_pos(n as nat);
            lemma_pow2_unfold((n + 1) as nat);
            let d = pow2(n as nat);
            if n >= 128 {
                if n > 128 {
                    lemma_pow2_strictly_increases(128, n as nat);
                }
                assert(rest as nat * d >= d) by (nonlinear_arith)
                    requires
                        rest >= 1,
                        d >= 0,
                ;
            }
            assert((rest as nat / 2) * (2 * d) <= rest as nat * d) by (nonlinear_arith)
                requires
                    d >= 0,
            ;
        }
        rest = rest / 2;
        n = n + 1;
    }
    n
}

/// `v / 2^s` rounded to the nearest integer, a tie going to the even one.
pub fn round_half_even_u128(v: u128, s: u32) -> (r: u128)
    requires
        s < 63,
        v < 0x8000_0000_0000_0000_0000_0000_0000_0000,
    ensures
        r == round_half_even(v as nat, s as nat),
{
    let d = pow2_u64(s) as u128;
    let q = v / d;
    let r = v % d;
    proof {
        lemma2_to64();
        lemma2_to64_rest();
        if s < 62 {
            lemma_pow2_strictly_increases(s as nat, 62);
        }
        vstd::arithmetic::div_mod::lemma_div_is_ordered_by_denominator(v as int, 1, d as int);
    }
    if 2 * r > d || (2 * r == d && q % 2 == 1) {
        q + 1
    } else {
        q
    }
}

/// The significand and the biased exponent of a positive normal binary64.
fn unpack(bits: u64) -> (parts: (u64, u64))
    requires
        f64_is_positive_normal(bits),
    ensures
        parts.0 == f64_significand(bits),
        parts.1 == f64_exponent(bits),
        TWO_POW_52 <= parts.0 < 2 * TWO_POW_52,
        parts.1 == f64_scale(bits) + 1075,
        1 <= parts.1 <= 2046,
{
    (TWO_POW_52 + bits % TWO_POW_52, (bits / TWO_POW_52) % 2048)
}

/// The pattern of `significand * 2^(field - 1075)`.
fn pack(significand: u64, field: u64) -> (bits: u64)
    requires
        TWO_POW_52 <= significand <= 2 * TWO_POW_52,
        1 <= field <= 2045,
    ensures
        bits == f64_pack(significand as nat, field - 1075),
        f64_is_positive_normal(bits),
        field <= f64_exponent(bits) <= field + 1,
{
    (field - 1) * TWO_POW_52 + significand
}

/// Divides one positive normal binary64 by another.
pub fn f64_div(x: u64, y: u64) -> (r: u64)
    requires
        f64_is_positive_normal(x),
        f64_is_positive_normal(y),
        56 <= f64_exponent(x) + 1075 - f64_exponent(y) <= 2045,
    ensures
        r == f64_div_bits(x, y),
        f64_is_positive_normal(r),
        f64_exponent(x) + 1022 - f64_exponent(y) <= f64_exponent(r) <= f64_exponent(x) + 1024
            - f64_exponent(y),
{
    let (a, ea) = unpack(x);
    let (b, eb) = unpack(y);
    let k: u64 = if a >= b {
        52
    } else {
        53
    };
    proof {
        lemma2_to64();
        lemma2_to64_rest();
        assert(a as nat * pow2(k as nat) < 0x20_0000_0000_0000 * 0x20_0000_0000_0000)
            by (nonlinear_arith)
            requires
                a < 0x20_0000_0000_0000,
                pow2(k as nat) <= 0x20_0000_0000_0000,
        ;
    }
    let scaled: u128 = a as u128 * pow2_u64(k as u32) as u128;
    let q = scaled / b as u128;
    let r = scaled % b as u128;
    proof {
        let n = scaled as int;
        let d = b as int;
        vstd::arithmetic::div_mod::lemma_fundamental_div_mod(n, d);
        // the quotient has 53 digits
        if a >= b {
            assert(q >= 0x10_0000_0000_0000 && q < 0x20_0000_0000_0000) by (nonlinear_arith)
                requires
                    n == d * q + r,
                    0 <= r < d,
                    n == a * 0x10_0000_0000_0000,
                    a >= d,
                    a < 2 * d,
                    d > 0,
            ;
        } else {
            assert(q >= 0x10_0000_0000_0000 && q < 0x20_0000_0000_0000) by (nonlinear_arith)
                requires
                    n == d * q + r,
                    0 <= r < d,
                    n == a * 0x20_0000_0000_0000,
                    a < d,
                    2 * a >= d,
                    d > 0,
            ;
        }
    }
    let significand: u128 = if 2 * r > b as u128 || (2 * r == b as u128 && q % 2 == 1) {
        q + 1
    } else {
        q
    };
    pack(significand as u64, ea + 1075 - eb - k)
}

/// Multiplies two positive normal binary64 numbers.
pub fn f64_mul(x: u64, y: u64) -> (r: u64)
    requires
        f64_is_positive_normal(x),
        f64_is_positive_normal(y),
        1024 <= f64_exponent(x) + f64_exponent(y) <= 3066,
    ensures
        r == f64_mul_bits(x, y),
        f64_is_positive_normal(r),
        f64_exponent(r) <= f64_exponent(x) + f64_exponent(y) - 1021,
{
    let (a, ea) = unpack(x);
    let (b, eb) = unpack(y);
    proof {
        lemma2_to64();
        lemma2_to64_rest();
        lemma_pow2_adds(52, 52);
        lemma_pow2_adds(53, 53);
        lemma_pow2_adds(64, 40);
        lemma_pow2_adds(64, 42);
        assert(a * b >= pow2(52) * pow2(52) && a * b < pow2(53) * pow2(53)) by (nonlinear_arith)
            requires
                pow2(52) <= a < pow2(53),
                pow2(52) <= b < pow2(53),
        ;
    }
    let p: u128 = a as u128 * b as u128;
    let n = bit_length_u128(p);
    proof {
        lemma_bit_length_bounds(p as nat);
        if n < 104 {
            lemma_pow2_strictly_increases(n as nat, 104);
        }
        if n > 107 {
            lemma_pow2_strictly_increases(106, (n - 1) as nat);
        }
        assert(n == 105 || n == 106);
        lemma_round_half_even_bounds(p as nat, n as nat, (n - 53) as nat);
        assert(pow2(127) == 0x8000_0000_0000_0000_0000_0000_0000_0000) by {
            lemma_pow2_adds(64, 63);
        }
        lemma_pow2_strictly_increases(106, 127);
    }
    let s = n - 53;
    let significand = round_half_even_u128(p, s);
    pack(significand as u64, ea + eb + s as u64 - 1075)
}

/// `used` as a percentage of `allocated`.
pub fn percentage(used: u64, allocated: u64) -> (bits: u64)
    ensures
        bits == percentage_bits(used as nat, allocated as nat),
        used > 0 && allocated > 0 ==> f64_is_positive_normal(bits) && f64_exponent(bits)
            <= bit_length(used as nat) + 1032,
{
    if allocated == 0 || used == 0 {
        return 0;
    }
    let x = nat_to_float_bits_exec(used, 53, 1074);
    let y = nat_to_float_bits_exec(allocated, 53, 1074);
    proof {
        lemma_cast_is_normal(used as nat);
        lemma_cast_is_normal(allocated as nat);
        lemma2_to64_rest();
    }
    proof {
        lemma_quotient_exponent(x, y);
    }
    let q = f64_div(x, y);
    f64_mul(q, HUNDRED)
}

/// The cast of a number of at most 64 digits is a positive normal binary64
/// of at least 1.
proof fn lemma_cast_is_normal(v: nat)
    requires
        0 < v <= u64::MAX,
    ensures
        f64_is_positive_normal(nat_to_float_bits(v, 53, 1074) as u64),
        1023 <= f64_exponent(nat_to_float_bits(v, 53, 1074) as u64) <= 1087,
        f64_exponent(nat_to_float_bits(v, 53, 1074) as u64) <= 1023 + bit_length(v),
        nat_to_float_bits(v, 53, 1074) <= u64::MAX,
{
    lemma2_to64();
    lemma2_to64_rest();
    lemma_bit_length_bounds(v);
    let n = bit_length(v);
    if n > 64 {
        lemma_pow2_strictly_increases(64, (n - 1) as nat);
    }
    let m = rounded_significand(v, 53);
    if n <= 53 {
        lemma_pow2_adds((n - 1) as nat, (53 - n) as nat);
        lemma_pow2_adds(n, (53 - n) as nat);
        lemma_pow2_pos((53 - n) as nat);
        let up = pow2((53 - n) as nat);
        assert(v * up >= pow2((n - 1) as nat) * up && v * up < pow2(n) * up) by (nonlinear_arith)
            requires
                pow2((n - 1) as nat) <= v < pow2(n),
                up > 0,
        ;
    } else {
        lemma_round_half_even_bounds(v, n, (n - 53) as nat);
    }
    assert(pow2(52) <= m <= pow2(53));
    let field = (n + 1074 - 53) as nat;
    let bits = field * pow2(52) + m;
    assert(nat_to_float_bits(v, 53, 1074) == bits);
    assert(field * 0x10_0000_0000_0000 + 0x10_0000_0000_0000 <= bits <= field
        * 0x10_0000_0000_0000 + 0x20_0000_0000_0000);
    assert(1022 <= field <= 1085);
    let whole = bits / 0x10_0000_0000_0000;
    assert(field + 1 <= whole <= field + 2) by {
        vstd::arithmetic::div_mod::lemma_fundamental_div_mod(bits as int, 0x10_0000_0000_0000);
    }
}

/// The quotient of two casts is a positive normal binary64 between `2^-65`
/// and `2^65`.
proof fn lemma_quotient_exponent(x: u64, y: u64)
    requires
        f64_is_positive_normal(x),
        f64_is_positive_normal(y),
        1023 <= f64_exponent(x) <= 1087,
        1023 <= f64_exponent(y) <= 1087,
    ensures
        56 <= f64_exponent(x) + 1075 - f64_exponent(y) <= 2045,
        f64_exponent(HUNDRED) == 1029,
        f64_is_positive_normal(HUNDRED),
{
}

/// The tenths of a positive normal binary64 that is below `2^60`.
pub fn tenths(bits: u64) -> (t: u64)
    requires
        f64_is_positive_normal(bits),
        f64_exponent(bits) <= 1081,
    ensures
        t == f64_tenths(bits),
{
    let (m, field) = unpack(bits);
    let scaled = m * 10;
    proof {
        lemma2_to64();
        lemma2_to64_rest();
    }
    if field >= 1075 {
        let up = pow2_u64((field - 1075) as u32);
        proof {
            if field < 1081 {
                lemma_pow2_strictly_increases((field - 1075) as nat, 6);
            }
            assert(scaled * up <= 0x140_0000_0000_0000 * 64) by (nonlinear_arith)
                requires
                    scaled <= 0x140_0000_0000_0000,
                    up <= 64,
            ;
        }
        scaled * up
    } else {
        let s = 1075 - field;
        if s >= 62 {
            proof {
                lemma_pow2_strictly_increases(58, s as nat);
                lemma_basic_div(scaled as int, pow2(s as nat) as int);
                lemma_small_mod(scaled as nat, pow2(s as nat));
            }
            0
        } else {
            round_half_even_u64(scaled, s as u32)
        }
    }
}

/// The percentage of a size measured against itself is exactly 100, and the
/// percentage of anything measured against nothing is exactly 0.
pub proof fn lemma_percentage_of_whole(v: nat)
    requires
        v <= u64::MAX,
    ensures
        percentage_bits(v, 0) == 0,
        v > 0 ==> percentage_bits(v, v) == HUNDRED,
{
    if v > 0 {
        lemma2_to64();
        lemma2_to64_rest();
        lemma_cast_is_normal(v);
        let x = nat_to_float_bits(v, 53, 1074) as u64;
        let a = f64_significand(x);
        // a number divided by itself is one
        assert(a * pow2(52) == pow2(52) * a) by (nonlinear_arith);
        vstd::arithmetic::div_mod::lemma_div_by_multiple(pow2(52) as int, a as int);
        vstd::arithmetic::div_mod::lemma_mod_multiples_basic(pow2(52) as int, a as int);
        assert(round_quotient(a * pow2(52), a) == pow2(52));
        let one: u64 = 0x3FF0_0000_0000_0000;
        assert(f64_div_bits(x, x) == one);
        // one times a hundred is a hundred
        assert(f64_significand(one) == 0x10_0000_0000_0000);
        assert(f64_significand(HUNDRED) == 0x19_0000_0000_0000);
        let p = f64_significand(one) * f64_significand(HUNDRED);
        lemma_pow2_adds(52, 52);
        lemma_pow2_adds(52, 53);
        assert(p == 0x19_0000_0000_0000 * pow2(52));
        assert(pow2(104) <= p < pow2(105)) by (nonlinear_arith)
            requires
                p == 0x19_0000_0000_0000 * pow2(52),
                pow2(104) == 0x10_0000_0000_0000 * pow2(52),
                pow2(105) == 0x20_0000_0000_0000 * pow2(52),
                pow2(52) > 0,
        ;
        lemma_bit_length_unique(p, 105);
        vstd::arithmetic::div_mod::lemma_div_by_multiple(0x19_0000_0000_0000, pow2(52) as int);
        vstd::arithmetic::div_mod::lemma_mod_multiples_basic(
            0x19_0000_0000_0000,
            pow2(52) as int,
        );
        assert(round_half_even(p, 52) == 0x19_0000_0000_0000);
    }
}

} // verus!
