//! Numbers written out as text.

use crate::variant::workbook::{trim, trimmed};
use vstd::prelude::*;
use vstd::string::{StrSliceExecFns, StringExecFns};

verus! {

/// The character of one decimal digit.
pub open spec fn digit_char(d: nat) -> char {
    if d == 0 {
        '0'
    } else if d == 1 {
        '1'
    } else if d == 2 {
        '2'
    } else if d == 3 {
        '3'
    } else if d == 4 {
        '4'
    } else if d == 5 {
        '5'
    } else if d == 6 {
        '6'
    } else if d == 7 {
        '7'
    } else if d == 8 {
        '8'
    } else {
        '9'
    }
}

/// `v` in decimal digits, without leading zeros.
pub open spec fn decimal(v: nat) -> Seq<char>
    decreases v,
{
    if v < 10 {
        seq![digit_char(v)]
    } else {
        decimal(v / 10).push(digit_char(v % 10))
    }
}

/// `v` in decimal digits, with a minus sign where it is negative.
pub open spec fn signed_decimal(v: int) -> Seq<char> {
    if v < 0 {
        seq!['-'] + decimal((-v) as nat)
    } else {
        decimal(v as nat)
    }
}

/// The text of one decimal digit.
fn digit_text(d: u64) -> (text: &'static str)
    requires
        d < 10,
    ensures
        text@ == seq![digit_char(d as nat)],
{
    proof {
        reveal_strlit("0");
        reveal_strlit("1");
        reveal_strlit("2");
        reveal_strlit("3");
        reveal_strlit("4");
        reveal_strlit("5");
        reveal_strlit("6");
        reveal_strlit("7");
        reveal_strlit("8");
        reveal_strlit("9");
    }
    let text = if d == 0 {
        "0"
    } else if d == 1 {
        "1"
    } else if d == 2 {
        "2"
    } else if d == 3 {
        "3"
    } else if d == 4 {
        "4"
    } else if d == 5 {
        "5"
    } else if d == 6 {
        "6"
    } else if d == 7 {
        "7"
    } else if d == 8 {
        "8"
    } else {
        "9"
    };
    assert(text@ =~= seq![digit_char(d as nat)]);
    text
}

/// Appends `v` in decimal digits to `out`.
pub fn push_decimal(out: &mut String, v: u64)
    ensures
        final(out)@ == old(out)@ + decimal(v as nat),
    decreases v,
{
    if v >= 10 {
        push_decimal(out, v / 10);
    }
    out.append(digit_text(v % 10));
    proof {
        if v >= 10 {
            assert(final(out)@ =~= old(out)@ + decimal(v as nat));
        } else {
            assert(final(out)@ =~= old(out)@ + decimal(v as nat));
        }
    }
}

/// Appends `v` in decimal digits to `out`, with a minus sign where it is
/// negative.
pub fn push_signed_decimal(out: &mut String, v: i64)
    ensures
        final(out)@ == old(out)@ + signed_decimal(v as int),
{
    if v < 0 {
        proof {
            reveal_strlit("-");
        }
        out.append("-");
        let magnitude: u64 = (-(v as i128)) as u64;
        push_decimal(out, magnitude);
        assert(final(out)@ =~= old(out)@ + signed_decimal(v as int));
    } else {
        push_decimal(out, v as u64);
    }
}

/// The value of a digit in the given radix, which is 10 or 16.
pub open spec fn digit_value(c: char, radix: nat) -> Option<nat> {
    let code = c as u32;
    if 0x30 <= code <= 0x39 {
        Some((code - 0x30) as nat)
    } else if radix == 16 && 0x61 <= code <= 0x66 {
        Some((code - 0x61 + 10) as nat)
    } else if radix == 16 && 0x41 <= code <= 0x46 {
        Some((code - 0x41 + 10) as nat)
    } else {
        None
    }
}

/// The number that the characters from `from` on add to `acc`. Underscores
/// are passed over; a plus sign may stand before the first digit; there is
/// at least one digit, and nothing but digits.
pub open spec fn number_from(
    text: Seq<char>,
    from: int,
    acc: nat,
    radix: nat,
    seen: bool,
    sign_allowed: bool,
) -> Option<nat>
    decreases text.len() - from,
{
    if from < 0 || from >= text.len() {
        if seen {
            Some(acc)
        } else {
            None
        }
    } else if text[from] == '_' {
        number_from(text, from + 1, acc, radix, seen, sign_allowed)
    } else if text[from] == '+' && sign_allowed {
        number_from(text, from + 1, acc, radix, false, false)
    } else {
        match digit_value(text[from], radix) {
            None => None,
            Some(d) => number_from(text, from + 1, acc * radix + d, radix, true, false),
        }
    }
}

/// Whether a text starts with `0x` or `0X`.
pub open spec fn has_hex_prefix(text: Seq<char>) -> bool {
    text.len() >= 2 && text[0] == '0' && (text[1] == 'x' || text[1] == 'X')
}

/// The number that a text holds: hexadecimal behind `0x` or `0X`, else
/// decimal, with white space around it and underscores in it left aside.
/// A number that does not fit 32 bits is none.
pub open spec fn parsed_u32(text: Seq<char>) -> Option<u32> {
    let core = trimmed(text);
    let number = if has_hex_prefix(core) {
        number_from(core, 2, 0, 16, false, true)
    } else {
        number_from(core, 0, 0, 10, false, true)
    };
    match number {
        Some(v) => if v <= u32::MAX {
            Some(v as u32)
        } else {
            None
        },
        None => None,
    }
}

/// A number that has grown too large stays too large.
proof fn lemma_number_grows(
    text: Seq<char>,
    from: int,
    acc: nat,
    radix: nat,
    seen: bool,
    sign_allowed: bool,
)
    requires
        radix >= 1,
        from >= 0,
        !sign_allowed,
    ensures
        number_from(text, from, acc, radix, seen, sign_allowed) matches Some(v) ==> v >= acc,
    decreases text.len() - from,
{
    if from < text.len() {
        if text[from] == '_' {
            lemma_number_grows(text, from + 1, acc, radix, seen, sign_allowed);
        } else {
            match digit_value(text[from], radix) {
                None => {},
                Some(d) => {
                    lemma_number_grows(text, from + 1, acc * radix + d, radix, true, false);
                    assert(acc * radix + d >= acc) by (nonlinear_arith)
                        requires
                            radix >= 1,
                    ;
                },
            }
        }
    }
}

fn digit_of(c: char, radix: u64) -> (r: Option<u64>)
    requires
        radix == 10 || radix == 16,
    ensures
        match r {
            Some(d) => digit_value(c, radix as nat) == Some(d as nat) && d < radix,
            None => digit_value(c, radix as nat) is None,
        },
{
    let code = c as u32;
    if 0x30 <= code && code <= 0x39 {
        Some((code - 0x30) as u64)
    } else if radix == 16 && 0x61 <= code && code <= 0x66 {
        Some((code - 0x61 + 10) as u64)
    } else if radix == 16 && 0x41 <= code && code <= 0x46 {
        Some((code - 0x41 + 10) as u64)
    } else {
        None
    }
}

/// Reads a number out of a text: hexadecimal behind `0x` or `0X`, else
/// decimal. White space around the number and underscores in it are left
/// aside.
#[verifier::loop_isolation(false)]
pub fn parse_u32_from_str(offset: &str) -> (r: Result<u32, ()>)
    ensures
        match r {
            Ok(v) => parsed_u32(offset@) == Some(v),
            Err(_) => parsed_u32(offset@) is None,
        },
{
    let core = trim(offset);
    let n = core.unicode_len();
    let hex = n >= 2 && core.get_char(0) == '0' && (core.get_char(1) == 'x' || core.get_char(1)
        == 'X');
    let radix: u64 = if hex {
        16
    } else {
        10
    };
    let mut i: usize = if hex {
        2
    } else {
        0
    };
    let ghost start = i as int;
    let mut acc: u64 = 0;
    let mut seen = false;
    let mut sign_allowed = true;
    while i < n
        invariant
            i <= n,
            n == core@.len(),
            radix == 10 || radix == 16,
            acc <= u32::MAX,
            sign_allowed ==> !seen,
            number_from(core@, start, 0, radix as nat, false, true) == number_from(
                core@,
                i as int,
                acc as nat,
                radix as nat,
                seen,
                sign_allowed,
            ),
        decreases n - i,
    {
        let c = core.get_char(i);
        if c == '_' {
        } else if c == '+' && sign_allowed {
            seen = false;
            sign_allowed = false;
        } else {
            match digit_of(c, radix) {
                None => {
                    return Err(());
                },
                Some(d) => {
                    let next = acc * radix + d;
                    if next > u32::MAX as u64 {
                        proof {
                            lemma_number_grows(
                                core@,
                                i + 1,
                                next as nat,
                                radix as nat,
                                true,
                                false,
                            );
                        }
                        return Err(());
                    }
                    acc = next;
                    seen = true;
                    sign_allowed = false;
                },
            }
        }
        i = i + 1;
    }
    if seen {
        Ok(acc as u32)
    } else {
        Err(())
    }
}

} // verus!
