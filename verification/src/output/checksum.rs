use crate::layout::settings::CrcData;
use vstd::arithmetic::power2::{lemma2_to64, lemma_pow2_unfold, pow2};
use vstd::prelude::*;

verus! {

/// The `n` low bits of `x` in reverse order, as a number below `2^n`.
pub open spec fn reverse_low_bits(x: nat, n: nat) -> nat
    decreases n,
{
    if n == 0 {
        0
    } else {
        (x % 2) * pow2((n - 1) as nat) + reverse_low_bits(x / 2, (n - 1) as nat)
    }
}

/// `x` with its 32 bits in reverse order.
pub open spec fn reflect(x: u32) -> u32 {
    reverse_low_bits(x as nat, 32) as u32
}

/// One shift of the register that shifts right (reflected input).
pub open spec fn shift_reflected(reg: u32, poly: u32) -> u32 {
    if reg & 1 == 1 {
        (reg >> 1) ^ poly
    } else {
        reg >> 1
    }
}

/// One shift of the register that shifts left (input as it comes).
pub open spec fn shift_plain(reg: u32, poly: u32) -> u32 {
    if (reg >> 31) & 1 == 1 {
        (reg << 1) ^ poly
    } else {
        reg << 1
    }
}

/// `n` shifts of the register.
pub open spec fn shift_bits(reg: u32, poly: u32, reflected: bool, n: nat) -> u32
    decreases n,
{
    if n == 0 {
        reg
    } else if reflected {
        shift_bits(shift_reflected(reg, poly), poly, reflected, (n - 1) as nat)
    } else {
        shift_bits(shift_plain(reg, poly), poly, reflected, (n - 1) as nat)
    }
}

/// The register after one more input byte: the byte is XORed into the bottom
/// (reflected) or the top of the register, which then shifts eight times.
pub open spec fn feed_byte(reg: u32, byte: u8, poly: u32, reflected: bool) -> u32 {
    if reflected {
        shift_bits(reg ^ (byte as u32), poly, true, 8)
    } else {
        shift_bits(reg ^ ((byte as u32) << 24), poly, false, 8)
    }
}

/// The register after all of `data`, from the seed `init`.
pub open spec fn feed_bytes(data: Seq<u8>, init: u32, poly: u32, reflected: bool) -> u32
    decreases data.len(),
{
    if data.len() == 0 {
        init
    } else {
        feed_byte(feed_bytes(data.drop_last(), init, poly, reflected), data.last(), poly, reflected)
    }
}

/// The CRC of `data`: seed and polynomial are reflected when the input is,
/// the final register is reflected when input and output disagree, and the
/// result is XORed with `xor_out`.
pub open spec fn crc_of(data: Seq<u8>, crc: CrcData) -> u32 {
    let init = if crc.ref_in { reflect(crc.start) } else { crc.start };
    let poly = if crc.ref_in { reflect(crc.polynomial) } else { crc.polynomial };
    let reg = feed_bytes(data, init, poly, crc.ref_in);
    let out = if crc.ref_in != crc.ref_out { reflect(reg) } else { reg };
    out ^ crc.xor_out
}

/// Reverses the order of the 32 bits of `x`.
fn reverse_bits(x: u32) -> (r: u32)
    ensures
        r == reflect(x),
{
    let mut acc: u32 = 0;
    let mut rest: u32 = x;
    let mut i: u32 = 0;
    proof {
        lemma2_to64();
    }
    while i < 32
        invariant
            i <= 32,
            acc < pow2(i as nat),
            reverse_low_bits(x as nat, 32) == acc * pow2((32 - i) as nat) + reverse_low_bits(
                rest as nat,
                (32 - i) as nat,
            ),
        decreases 32 - i,
    {
        proof {
            lemma2_to64();
            lemma_pow2_unfold((i + 1) as nat);
            lemma_pow2_unfold((32 - i) as nat);
            let p = pow2((31 - i) as nat);
            assert(acc * (2 * p) + (rest % 2) * p == (acc * 2 + rest % 2) * p) by (nonlinear_arith);
            assert(pow2(32) == 0x1_0000_0000) by {
                lemma2_to64();
            }
            if i == 31 {
                assert(pow2(31) == 0x8000_0000);
            }
            assert(pow2((i + 1) as nat) <= 0x1_0000_0000) by {
                if i < 31 {
                    vstd::arithmetic::power2::lemma_pow2_strictly_increases((i + 1) as nat, 32);
                }
            }
        }
        acc = acc * 2 + rest % 2;
        rest = rest / 2;
        i = i + 1;
    }
    proof {
        lemma2_to64();
        assert(acc * pow2(0) == acc);
        assert(reverse_low_bits(rest as nat, 0) == 0);
    }
    acc
}

proof fn lemma_shift_reflected_linear(a: u32, b: u32, poly: u32)
    by (bit_vector)
    requires
        b & 1 == 0,
    ensures
        shift_reflected(a ^ b, poly) == shift_reflected(a, poly) ^ (b >> 1),
{
}

proof fn lemma_shift_plain_linear(a: u32, b: u32, poly: u32)
    by (bit_vector)
    requires
        (b >> 31) & 1 == 0,
    ensures
        shift_plain(a ^ b, poly) == shift_plain(a, poly) ^ (b << 1),
{
}

/// Shifting is linear over XOR: a part of the register whose `n` low bits
/// are clear only moves while the rest is shifted `n` times.
proof fn lemma_shift_bits_reflected_split(a: u32, b: u32, poly: u32, n: u32)
    requires
        n <= 8,
        b & 0xFF == 0,
    ensures
        shift_bits(a ^ (b >> (8 - n) as u32), poly, true, n as nat) == shift_bits(
            a,
            poly,
            true,
            n as nat,
        ) ^ (b >> 8),
    decreases n,
{
    let c = b >> ((8 - n) as u32);
    if n == 0 {
        assert(b >> 8u32 == b >> 8) by (bit_vector);
    } else {
        assert(c & 1 == 0 && c >> 1 == b >> ((8 - (n - 1) as u32) as u32)) by (bit_vector)
            requires
                c == b >> ((8 - n) as u32),
                1 <= n <= 8,
                b & 0xFF == 0,
        ;
        lemma_shift_reflected_linear(a, c, poly);
        lemma_shift_bits_reflected_split(shift_reflected(a, poly), b, poly, (n - 1) as u32);
    }
}

/// The same for the register that shifts left.
proof fn lemma_shift_bits_plain_split(a: u32, b: u32, poly: u32, n: u32)
    requires
        n <= 8,
        b & 0xFF00_0000 == 0,
    ensures
        shift_bits(a ^ (b << (8 - n) as u32), poly, false, n as nat) == shift_bits(
            a,
            poly,
            false,
            n as nat,
        ) ^ (b << 8),
    decreases n,
{
    let c = b << ((8 - n) as u32);
    if n == 0 {
        assert(b << 8u32 == b << 8) by (bit_vector);
    } else {
        assert((c >> 31) & 1 == 0 && c << 1 == b << ((8 - (n - 1) as u32) as u32)) by (bit_vector)
            requires
                c == b << ((8 - n) as u32),
                1 <= n <= 8,
                b & 0xFF00_0000 == 0,
        ;
        lemma_shift_plain_linear(a, c, poly);
        lemma_shift_bits_plain_split(shift_plain(a, poly), b, poly, (n - 1) as u32);
    }
}

/// Eight shifts of the low byte alone, the way a lookup table holds them.
fn table_entry_reflected(index: u32, poly: u32) -> (step: u32)
    ensures
        step == shift_bits(index, poly, true, 8),
{
    let mut step: u32 = index;
    let mut k: u32 = 0;
    while k < 8
        invariant
            k <= 8,
            shift_bits(step, poly, true, (8 - k) as nat) == shift_bits(index, poly, true, 8),
        decreases 8 - k,
    {
        step = if step & 1 == 1 {
            (step >> 1) ^ poly
        } else {
            step >> 1
        };
        k = k + 1;
    }
    step
}

/// Eight shifts of the high byte alone.
fn table_entry_plain(top: u32, poly: u32) -> (step: u32)
    ensures
        step == shift_bits(top, poly, false, 8),
{
    let mut step: u32 = top;
    let mut k: u32 = 0;
    while k < 8
        invariant
            k <= 8,
            shift_bits(step, poly, false, (8 - k) as nat) == shift_bits(top, poly, false, 8),
        decreases 8 - k,
    {
        step = if (step >> 31) & 1 == 1 {
            (step << 1) ^ poly
        } else {
            step << 1
        };
        k = k + 1;
    }
    step
}

/// Computes the CRC-32 of `data` with the given parameters, one byte at a
/// time: the byte's own eight shifts are worked out apart from the rest of
/// the register, which only moves by eight bits.
pub fn calculate_crc(data: &[u8], crc_settings: &CrcData) -> (crc: u32)
    ensures
        crc == crc_of(data@, *crc_settings),
{
    let reflected = crc_settings.ref_in;
    let init = if reflected {
        reverse_bits(crc_settings.start)
    } else {
        crc_settings.start
    };
    let poly = if reflected {
        reverse_bits(crc_settings.polynomial)
    } else {
        crc_settings.polynomial
    };
    let mut reg: u32 = init;
    let mut i: usize = 0;
    while i < data.len()
        invariant
            i <= data.len(),
            reg == feed_bytes(data@.take(i as int), init, poly, reflected),
        decreases data.len() - i,
    {
        let byte = data[i];
        proof {
            assert(data@.take(i + 1).drop_last() == data@.take(i as int));
            assert(data@.take(i + 1).last() == byte);
        }
        if reflected {
            let index = (reg ^ (byte as u32)) & 0xFF;
            let step = table_entry_reflected(index, poly);
            proof {
                let rest = reg & 0xFFFF_FF00;
                assert(rest & 0xFF == 0 && rest >> 8 == reg >> 8 && (index ^ (rest >> 0u32)) == reg
                    ^ (byte as u32)) by (bit_vector)
                    requires
                        rest == reg & 0xFFFF_FF00,
                        index == (reg ^ (byte as u32)) & 0xFF,
                ;
                lemma_shift_bits_reflected_split(index, rest, poly, 8);
            }
            reg = step ^ (reg >> 8);
        } else {
            let index = ((reg >> 24) ^ (byte as u32)) & 0xFF;
            let step = table_entry_plain(index << 24, poly);
            proof {
                let rest = reg & 0x00FF_FFFF;
                assert(rest & 0xFF00_0000 == 0 && rest << 8 == reg << 8 && ((index << 24) ^ (rest
                    << 0u32)) == reg ^ ((byte as u32) << 24)) by (bit_vector)
                    requires
                        rest == reg & 0x00FF_FFFF,
                        index == ((reg >> 24) ^ (byte as u32)) & 0xFF,
                ;
                lemma_shift_bits_plain_split(index << 24, rest, poly, 8);
            }
            reg = step ^ (reg << 8);
        }
        i = i + 1;
    }
    proof {
        assert(data@.take(data.len() as int) == data@);
    }
    if crc_settings.ref_in != crc_settings.ref_out {
        reg = reverse_bits(reg);
    }
    reg ^ crc_settings.xor_out
}

} // verus!
