//! The lexical grammar of JSON, over byte positions.
use vstd::prelude::*;

use crate::error::Fault;
use crate::text::utf8_bytes;

verus! {

/// Byte `b` stands at position `i`.
pub open spec fn at(s: Seq<u8>, i: int, b: u8) -> bool {
    0 <= i < s.len() && s[i] == b
}

pub open spec fn is_ws(b: u8) -> bool {
    b == 0x20 || b == 0x09 || b == 0x0A || b == 0x0D
}

/// The first position from `i` on that holds no whitespace.
pub open spec fn ws_end(s: Seq<u8>, i: int) -> int
    decreases s.len() - i,
{
    if 0 <= i < s.len() && is_ws(s[i]) {
        ws_end(s, i + 1)
    } else {
        i
    }
}

pub open spec fn is_digit(b: u8) -> bool {
    0x30 <= b <= 0x39
}

pub open spec fn digit_at(s: Seq<u8>, i: int) -> bool {
    0 <= i < s.len() && is_digit(s[i])
}

/// The first position from `i` on that holds no decimal digit.
pub open spec fn digits_end(s: Seq<u8>, i: int) -> int
    decreases s.len() - i,
{
    if digit_at(s, i) {
        digits_end(s, i + 1)
    } else {
        i
    }
}

pub open spec fn is_hex(b: u8) -> bool {
    is_digit(b) || 0x61 <= b <= 0x66 || 0x41 <= b <= 0x46
}

/// The value of a hexadecimal digit.
pub open spec fn hex_value(b: u8) -> nat {
    if is_digit(b) {
        (b - 0x30) as nat
    } else if b >= 0x61 {
        (b - 0x61 + 10) as nat
    } else {
        (b - 0x41 + 10) as nat
    }
}

/// The first of the `n` positions from `i` on that holds no hexadecimal
/// digit, or `i + n` if all do.
pub open spec fn hex_stop(s: Seq<u8>, i: int, n: nat) -> int
    decreases n,
{
    if n > 0 && 0 <= i < s.len() && is_hex(s[i]) {
        hex_stop(s, i + 1, (n - 1) as nat)
    } else {
        i
    }
}

/// The number that the four hexadecimal digits at `i` write.
pub open spec fn hex4(s: Seq<u8>, i: int) -> nat {
    hex_value(s[i]) * 4096 + hex_value(s[i + 1]) * 256 + hex_value(s[i + 2]) * 16 + hex_value(
        s[i + 3],
    )
}

pub open spec fn fault(pos: int, message: Seq<char>) -> Fault {
    Fault { pos, message }
}

/// The position past the closing quote of the string whose inside starts
/// at `i`, or where and why it is malformed.
pub open spec fn string_end(s: Seq<u8>, i: int) -> Result<int, Fault>
    decreases s.len() - i,
{
    if !(0 <= i < s.len()) {
        Err(fault(i, "unterminated string"@))
    } else if s[i] == 0x22 {
        Ok(i + 1)
    } else if s[i] == 0x5C {
        if i + 1 >= s.len() {
            Err(fault(i + 1, "unterminated escape"@))
        } else if s[i + 1] == 0x75 {
            if hex_stop(s, i + 2, 4) == i + 6 {
                proof {
                    hex_stop_range(s, i + 2, 4);
                }
                string_end(s, i + 6)
            } else {
                Err(fault(hex_stop(s, i + 2, 4), "invalid \\u escape"@))
            }
        } else {
            string_end(s, i + 2)
        }
    } else if s[i] < 0x20 {
        Err(fault(i, "control character in string"@))
    } else {
        string_end(s, i + 1)
    }
}

/// The byte that the one-letter escape `\c` stands for.
pub open spec fn short_escape(c: u8) -> Option<u8> {
    if c == 0x22 || c == 0x5C || c == 0x2F {
        Some(c)
    } else if c == 0x62 {
        Some(0x08u8)
    } else if c == 0x66 {
        Some(0x0Cu8)
    } else if c == 0x6E {
        Some(0x0Au8)
    } else if c == 0x72 {
        Some(0x0Du8)
    } else if c == 0x74 {
        Some(0x09u8)
    } else {
        None
    }
}

pub open spec fn is_high_surrogate(code: nat) -> bool {
    0xD800 <= code <= 0xDBFF
}

pub open spec fn is_low_surrogate(code: nat) -> bool {
    0xDC00 <= code <= 0xDFFF
}

/// The code point of a surrogate pair.
pub open spec fn pair_code(high: nat, low: nat) -> nat {
    (0x10000 + (high - 0xD800) * 0x400 + (low - 0xDC00)) as nat
}

/// The four hexadecimal digits at `i`, or where the first bad one is.
pub open spec fn hex4_at(s: Seq<u8>, i: int) -> Result<nat, Fault> {
    let stop = hex_stop(s, i, 4);
    if stop == i + 4 {
        Ok(hex4(s, i))
    } else if stop >= s.len() {
        Err(fault(stop, "incomplete \\u escape"@))
    } else {
        Err(fault(stop, "invalid hex digit"@))
    }
}

/// The `\u` escape whose digits start at `i`: the position past it and the
/// code point.
pub open spec fn unicode_escape(s: Seq<u8>, i: int) -> Result<(int, nat), Fault> {
    match hex4_at(s, i) {
        Err(f) => Err(f),
        Ok(high) => if is_high_surrogate(high) {
            if !at(s, i + 4, 0x5C) {
                Err(fault(i + 4, "expected low surrogate"@))
            } else if !at(s, i + 5, 0x75) {
                Err(fault(i + 5, "expected \\u"@))
            } else {
                match hex4_at(s, i + 6) {
                    Err(f) => Err(f),
                    Ok(low) => if is_low_surrogate(low) {
                        Ok((i + 10, pair_code(high, low)))
                    } else {
                        Err(fault(i + 10, "invalid low surrogate"@))
                    },
                }
            }
        } else if is_low_surrogate(high) {
            Err(fault(i + 4, "lone low surrogate"@))
        } else {
            Ok((i + 4, high))
        },
    }
}

/// `text` in front of the text of `r`.
pub open spec fn prepend(text: Seq<u8>, r: Result<(int, Seq<u8>), Fault>) -> Result<
    (int, Seq<u8>),
    Fault,
> {
    match r {
        Ok((end, rest)) => Ok((end, text + rest)),
        Err(f) => Err(f),
    }
}

/// The decoded text of the string whose inside starts at `i`, with the
/// position past its closing quote.
pub open spec fn string_text(s: Seq<u8>, i: int) -> Result<(int, Seq<u8>), Fault>
    decreases s.len() - i,
{
    if !(0 <= i < s.len()) {
        Err(fault(i, "unterminated string"@))
    } else if s[i] == 0x22 {
        Ok((i + 1, Seq::<u8>::empty()))
    } else if s[i] == 0x5C {
        if at(s, i + 1, 0x75) {
            match unicode_escape(s, i + 2) {
                Err(f) => Err(f),
                Ok((end, code)) => {
                    proof {
                        unicode_escape_range(s, i + 2);
                    }
                    prepend(utf8_bytes(code), string_text(s, end))
                },
            }
        } else if i + 1 < s.len() && short_escape(s[i + 1]) is Some {
            prepend(seq![short_escape(s[i + 1])->0], string_text(s, i + 2))
        } else {
            Err(fault(i + 1, "invalid escape"@))
        }
    } else if s[i] < 0x20 {
        Err(fault(i, "control character in string"@))
    } else {
        prepend(seq![s[i]], string_text(s, i + 1))
    }
}

/// The end of the digits before the fraction of a number: a lone zero, or
/// digits that start with no zero.
pub open spec fn integer_part(s: Seq<u8>, i: int) -> Result<int, Fault> {
    let j = if at(s, i, 0x2D) {
        i + 1
    } else {
        i
    };
    if at(s, j, 0x30) {
        Ok(j + 1)
    } else if digit_at(s, j) {
        Ok(digits_end(s, j + 1))
    } else {
        Err(fault(j, "expected digit in number"@))
    }
}

pub open spec fn fraction_part(s: Seq<u8>, i: int) -> Result<int, Fault> {
    if at(s, i, 0x2E) {
        if digit_at(s, i + 1) {
            Ok(digits_end(s, i + 1))
        } else {
            Err(fault(i + 1, "expected digit after '.'"@))
        }
    } else {
        Ok(i)
    }
}

pub open spec fn exponent_part(s: Seq<u8>, i: int) -> Result<int, Fault> {
    if at(s, i, 0x65) || at(s, i, 0x45) {
        let j = if at(s, i + 1, 0x2B) || at(s, i + 1, 0x2D) {
            i + 2
        } else {
            i + 1
        };
        if digit_at(s, j) {
            Ok(digits_end(s, j))
        } else {
            Err(fault(j, "expected digit in exponent"@))
        }
    } else {
        Ok(i)
    }
}

/// The position past the number that starts at `i`.
pub open spec fn number_end(s: Seq<u8>, i: int) -> Result<int, Fault> {
    match integer_part(s, i) {
        Err(f) => Err(f),
        Ok(a) => match fraction_part(s, a) {
            Err(f) => Err(f),
            Ok(b) => exponent_part(s, b),
        },
    }
}

/// The bytes `word` stand at `i`.
pub open spec fn word_at(s: Seq<u8>, i: int, word: Seq<u8>) -> bool {
    0 <= i && i + word.len() <= s.len() && s.subrange(i, i + word.len()) == word
}

/// Whitespace ends no later than the input, and not before its start.
pub proof fn ws_end_range(s: Seq<u8>, i: int)
    requires
        0 <= i <= s.len(),
    ensures
        i <= ws_end(s, i) <= s.len(),
        ws_end(s, i) < s.len() ==> !is_ws(s[ws_end(s, i)]),
    decreases s.len() - i,
{
    if i < s.len() && is_ws(s[i]) {
        ws_end_range(s, i + 1);
    }
}

pub proof fn digits_end_range(s: Seq<u8>, i: int)
    requires
        0 <= i <= s.len(),
    ensures
        i <= digits_end(s, i) <= s.len(),
    decreases s.len() - i,
{
    if digit_at(s, i) {
        digits_end_range(s, i + 1);
    }
}

pub proof fn hex_stop_range(s: Seq<u8>, i: int, n: nat)
    requires
        0 <= i <= s.len(),
    ensures
        i <= hex_stop(s, i, n) <= s.len(),
        hex_stop(s, i, n) <= i + n,
        forall|k: int| i <= k < hex_stop(s, i, n) ==> is_hex(#[trigger] s[k]),
        hex_stop(s, i, n) < i + n ==> hex_stop(s, i, n) == s.len() || !is_hex(
            s[hex_stop(s, i, n)],
        ),
    decreases n,
{
    if n > 0 && i < s.len() && is_hex(s[i]) {
        hex_stop_range(s, i + 1, (n - 1) as nat);
    }
}

/// A well-formed string ends inside the input.
pub proof fn string_end_range(s: Seq<u8>, i: int)
    requires
        0 <= i <= s.len(),
        string_end(s, i) is Ok,
    ensures
        i < string_end(s, i)->Ok_0 <= s.len(),
    decreases s.len() - i,
{
    if s[i] == 0x22 {
    } else if s[i] == 0x5C {
        if s[i + 1] == 0x75 {
            hex_stop_range(s, i + 2, 4);
            string_end_range(s, i + 6);
        } else {
            string_end_range(s, i + 2);
        }
    } else {
        string_end_range(s, i + 1);
    }
}

/// A well-formed number ends inside the input and is not empty.
pub proof fn number_end_range(s: Seq<u8>, i: int)
    requires
        0 <= i <= s.len(),
        number_end(s, i) is Ok,
    ensures
        i < number_end(s, i)->Ok_0 <= s.len(),
{
    let j = if at(s, i, 0x2D) {
        i + 1
    } else {
        i
    };
    if !at(s, j, 0x30) {
        digits_end_range(s, j + 1);
    }
    let a = integer_part(s, i)->Ok_0;
    if at(s, a, 0x2E) {
        digits_end_range(s, a + 1);
    }
    let b = fraction_part(s, a)->Ok_0;
    if at(s, b, 0x65) || at(s, b, 0x45) {
        let k = if at(s, b + 1, 0x2B) || at(s, b + 1, 0x2D) {
            b + 2
        } else {
            b + 1
        };
        digits_end_range(s, k);
    }
}

/// A decoded `\u` escape lies inside the input and is a code point that
/// UTF-8 can write.
pub proof fn unicode_escape_range(s: Seq<u8>, i: int)
    requires
        0 <= i <= s.len(),
        unicode_escape(s, i) is Ok,
    ensures
        i + 4 <= unicode_escape(s, i)->Ok_0.0 <= s.len(),
        unicode_escape(s, i)->Ok_0.1 <= 0x10FFFF,
        !is_high_surrogate(unicode_escape(s, i)->Ok_0.1),
        !is_low_surrogate(unicode_escape(s, i)->Ok_0.1),
{
    hex_stop_range(s, i, 4);
    let high = hex4(s, i);
    assert(is_hex(s[i]) && is_hex(s[i + 1]) && is_hex(s[i + 2]) && is_hex(s[i + 3]));
    if is_high_surrogate(high) {
        hex_stop_range(s, i + 6, 4);
    }
}

/// A decoded string ends inside the input.
pub proof fn string_text_range(s: Seq<u8>, i: int)
    requires
        0 <= i <= s.len(),
        string_text(s, i) is Ok,
    ensures
        i < string_text(s, i)->Ok_0.0 <= s.len(),
    decreases s.len() - i,
{
    if s[i] == 0x22 {
    } else if s[i] == 0x5C {
        if at(s, i + 1, 0x75) {
            unicode_escape_range(s, i + 2);
            string_text_range(s, unicode_escape(s, i + 2)->Ok_0.0);
        } else {
            string_text_range(s, i + 2);
        }
    } else {
        string_text_range(s, i + 1);
    }
}

} // verus!
