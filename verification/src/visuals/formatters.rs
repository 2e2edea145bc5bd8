use crate::layout::ieee754::{
    bit_length,
    f64_tenths,
    lemma_bit_length_bounds,
    percentage,
    percentage_bits,
    tenths,
};
use crate::layout::text::{decimal, digit_char, push_decimal};
use vstd::arithmetic::power2::{lemma2_to64, lemma2_to64_rest, lemma_pow2_strictly_increases};
use vstd::prelude::*;
use vstd::string::StringExecFns;

verus! {

/// `v`, which is below 1000, in three digits.
pub open spec fn three_digits(v: nat) -> Seq<char> {
    seq![digit_char(v / 100), digit_char((v / 10) % 10), digit_char(v % 10)]
}

/// `v` in decimal digits with a comma before every group of three.
pub open spec fn grouped(v: nat) -> Seq<char>
    decreases v,
{
    if v < 1000 {
        decimal(v)
    } else {
        grouped(v / 1000) + seq![','] + three_digits(v % 1000)
    }
}

/// The character of one hexadecimal digit, in upper case.
pub open spec fn hex_digit_char(d: nat) -> char {
    if d < 10 {
        digit_char(d)
    } else if d == 10 {
        'A'
    } else if d == 11 {
        'B'
    } else if d == 12 {
        'C'
    } else if d == 13 {
        'D'
    } else if d == 14 {
        'E'
    } else {
        'F'
    }
}

/// The `n` lowest hexadecimal digits of `v`, the highest first.
pub open spec fn hex_digits(v: nat, n: nat) -> Seq<char>
    decreases n,
{
    if n == 0 {
        Seq::empty()
    } else {
        hex_digits(v / 16, (n - 1) as nat).push(hex_digit_char(v % 16))
    }
}

/// An address the way it is displayed: `0x` and eight digits.
pub open spec fn address_text(address: u32) -> Seq<char> {
    "0x"@ + hex_digits(address as nat, 8)
}

/// The text of one hexadecimal digit.
fn hex_digit_text(d: u32) -> (text: &'static str)
    requires
        d < 16,
    ensures
        text@ == seq![hex_digit_char(d as nat)],
{
    proof {
        reveal_strlit("0");
        reveal_strlit("1");
        reveal_strlit("2");
        reveal_strlit("3");
        reveal_strlit("4");
        reveal_strlit("5");
        reveal_strlit("6");
        reveal_strlit("7");
        reveal_strlit("8");
        reveal_strlit("9");
        reveal_strlit("A");
        reveal_strlit("B");
        reveal_strlit("C");
        reveal_strlit("D");
        reveal_strlit("E");
        reveal_strlit("F");
    }
    let text = if d == 0 {
        "0"
    } else if d == 1 {
        "1"
    } else if d == 2 {
        "2"
    } else if d == 3 {
        "3"
    } else if d == 4 {
        "4"
    } else if d == 5 {
        "5"
    } else if d == 6 {
        "6"
    } else if d == 7 {
        "7"
    } else if d == 8 {
        "8"
    } else if d == 9 {
        "9"
    } else if d == 10 {
        "A"
    } else if d == 11 {
        "B"
    } else if d == 12 {
        "C"
    } else if d == 13 {
        "D"
    } else if d == 14 {
        "E"
    } else {
        "F"
    };
    assert(text@ =~= seq![hex_digit_char(d as nat)]);
    text
}

/// Appends the `n` lowest hexadecimal digits of `v` to `out`.
pub fn push_hex(out: &mut String, v: u32, n: u32)
    ensures
        final(out)@ == old(out)@ + hex_digits(v as nat, n as nat),
    decreases n,
{
    if n == 0 {
        assert(out@ =~= old(out)@ + hex_digits(v as nat, 0));
    } else {
        push_hex(out, v / 16, n - 1);
        out.append(hex_digit_text(v % 16));
        assert(final(out)@ =~= old(out)@ + hex_digits(v as nat, n as nat));
    }
}

/// Appends `v` with a comma before every group of three digits to `out`.
fn push_grouped(out: &mut String, v: u64)
    ensures
        final(out)@ == old(out)@ + grouped(v as nat),
    decreases v,
{
    if v < 1000 {
        push_decimal(out, v);
    } else {
        push_grouped(out, v / 1000);
        proof {
            reveal_strlit(",");
        }
        out.append(",");
        let low = v % 1000;
        let ghost before = out@;
        push_decimal(out, low / 100);
        push_decimal(out, (low / 10) % 10);
        push_decimal(out, low % 10);
        proof {
            assert(decimal((low / 100) as nat) =~= seq![digit_char((low / 100) as nat)]);
            assert(decimal(((low / 10) % 10) as nat) =~= seq![
                digit_char(((low / 10) % 10) as nat),
            ]);
            assert(decimal((low % 10) as nat) =~= seq![digit_char((low % 10) as nat)]);
            assert(final(out)@ =~= before + three_digits(low as nat));
            assert(final(out)@ =~= old(out)@ + grouped(v as nat));
        }
    }
}

/// A number of bytes the way it is displayed: `1,234 bytes`.
pub fn format_bytes(bytes: usize) -> (text: String)
    ensures
        text@ == grouped(bytes as nat) + " bytes"@,
{
    let mut text = String::new();
    push_grouped(&mut text, bytes as u64);
    text.append(" bytes");
    assert(text@ =~= grouped(bytes as nat) + " bytes"@);
    text
}

/// The addresses of a block the way they are displayed: the first and the
/// last, each as `0x` and eight digits.
pub fn format_address_range(start: u32, allocated: u32) -> (text: String)
    requires
        1 <= start + allocated <= 0x1_0000_0000,
    ensures
        text@ == address_text(start) + "-"@ + address_text((start + allocated - 1) as u32),
{
    let end: u32 = ((start as u64 + allocated as u64) - 1) as u32;
    let mut text = String::from_str("0x");
    push_hex(&mut text, start, 8);
    text.append("-");
    text.append("0x");
    push_hex(&mut text, end, 8);
    assert(text@ =~= address_text(start) + "-"@ + address_text(end));
    text
}

/// A percentage the way it is displayed: with one decimal, rounded to
/// nearest, ties to even, and a percent sign.
pub open spec fn efficiency_text(used: u32, allocated: u32) -> Seq<char> {
    if allocated == 0 || used == 0 {
        "0.0%"@
    } else {
        let t = f64_tenths(percentage_bits(used as nat, allocated as nat));
        decimal(t / 10) + "."@ + decimal(t % 10) + "%"@
    }
}

/// The used share of the allocated size the way it is displayed: in
/// percent with one decimal.
pub fn format_efficiency(used: u32, allocated: u32) -> (text: String)
    ensures
        text@ == efficiency_text(used, allocated),
{
    if allocated == 0 || used == 0 {
        return String::from_str("0.0%");
    }
    let bits = percentage(used as u64, allocated as u64);
    proof {
        lemma2_to64();
        lemma2_to64_rest();
        lemma_bit_length_bounds(used as nat);
        if bit_length(used as nat) > 32 {
            if bit_length(used as nat) > 33 {
                lemma_pow2_strictly_increases(32, (bit_length(used as nat) - 1) as nat);
            }
        }
    }
    let t = tenths(bits);
    let mut text = String::new();
    push_decimal(&mut text, t / 10);
    text.append(".");
    push_decimal(&mut text, t % 10);
    text.append("%");
    assert(text@ =~= efficiency_text(used, allocated));
    text
}

} // verus!
