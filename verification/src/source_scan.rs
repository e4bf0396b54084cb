//! Scanners over the raw source bytes of a document: they step over
//! whitespace, strings and other primitives, and decode string text.
use vstd::prelude::*;

use crate::json::{
    at, hex4, hex_stop, hex_stop_range, hex_value, is_digit, short_escape, unicode_escape,
    unicode_escape_range, word_at, ws_end,
};
use crate::parser::{false_word, null_word, true_word};
use crate::text::{encode_utf8, utf8_bytes};

verus! {

/// Moves `pos` past whitespace.
pub fn skip_ws(src: &[u8], pos: usize) -> (end: usize)
    requires
        pos <= src@.len(),
    ensures
        end == ws_end(src@, pos as int),
        pos <= end <= src@.len(),
{
    let mut p: usize = pos;
    while p < src.len() && (src[p] == 0x20 || src[p] == 0x09 || src[p] == 0x0A || src[p] == 0x0D)
        invariant
            pos <= p <= src@.len(),
            ws_end(src@, p as int) == ws_end(src@, pos as int),
        decreases src@.len() - p,
    {
        p += 1;
    }
    p
}

/// The position of the quote that closes the string whose inside starts at
/// `i`; a backslash takes the byte behind it along.
pub open spec fn closing_quote(s: Seq<u8>, i: int) -> Option<int>
    decreases s.len() - i,
{
    if !(0 <= i < s.len()) {
        None
    } else if s[i] == 0x22 {
        Some(i)
    } else if s[i] == 0x5C {
        if i + 1 < s.len() {
            closing_quote(s, i + 2)
        } else {
            None
        }
    } else {
        closing_quote(s, i + 1)
    }
}

/// The string that starts at `i`: the position of its closing quote.
pub open spec fn string_at(s: Seq<u8>, i: int) -> Option<int> {
    if at(s, i, 0x22) {
        closing_quote(s, i + 1)
    } else {
        None
    }
}

pub proof fn closing_quote_range(s: Seq<u8>, i: int)
    requires
        0 <= i,
        closing_quote(s, i) is Some,
    ensures
        i <= closing_quote(s, i)->0 < s.len(),
        s[closing_quote(s, i)->0] == 0x22,
    decreases s.len() - i,
{
    if s[i] == 0x22 {
    } else if s[i] == 0x5C {
        closing_quote_range(s, i + 2);
    } else {
        closing_quote_range(s, i + 1);
    }
}

/// Finds the closing quote of the string at `pos`.
pub fn find_string(src: &[u8], pos: usize) -> (r: Option<usize>)
    ensures
        match string_at(src@, pos as int) {
            Some(q) => r matches Some(e) && e == q && pos < q < src@.len(),
            None => r is None,
        },
{
    if pos >= src.len() || src[pos] != 0x22 {
        return None;
    }
    let mut p: usize = pos + 1;
    while p < src.len()
        invariant
            pos < p <= src@.len() + 1,
            closing_quote(src@, p as int) == closing_quote(src@, pos + 1),
            at(src@, pos as int, 0x22),
            src@.len() <= usize::MAX,
        decreases src@.len() + 1 - p,
    {
        if src[p] == 0x22 {
            return Some(p);
        }
        if src[p] == 0x5C {
            if p + 1 >= src.len() {
                return None;
            }
            p += 2;
        } else {
            p += 1;
        }
    }
    None
}

/// Moves past the string at `pos`; `None` if no whole string stands there.
pub fn skip_string(src: &[u8], pos: usize) -> (r: Option<usize>)
    ensures
        match string_at(src@, pos as int) {
            Some(q) => r matches Some(e) && e == q + 1 && pos + 1 < e <= src@.len(),
            None => r is None,
        },
{
    let _size: usize = src.len();
    match find_string(src, pos) {
        Some(q) => Some(q + 1),
        None => None,
    }
}

/// A byte that can stand in a number.
pub open spec fn is_number_byte(b: u8) -> bool {
    is_digit(b) || b == 0x2D || b == 0x2B || b == 0x2E || b == 0x65 || b == 0x45
}

/// The first position from `i` on whose byte cannot stand in a number.
pub open spec fn number_stop(s: Seq<u8>, i: int) -> int
    decreases s.len() - i,
{
    if 0 <= i < s.len() && is_number_byte(s[i]) {
        number_stop(s, i + 1)
    } else {
        i
    }
}

/// Moves past the number at `pos`.
pub fn skip_number(src: &[u8], pos: usize) -> (end: usize)
    requires
        pos <= src@.len(),
    ensures
        end == number_stop(src@, pos as int),
        pos <= end <= src@.len(),
{
    let mut p: usize = pos;
    while p < src.len() && ((src[p] >= 0x30 && src[p] <= 0x39) || src[p] == 0x2D || src[p] == 0x2B
        || src[p] == 0x2E || src[p] == 0x65 || src[p] == 0x45)
        invariant
            pos <= p <= src@.len(),
            number_stop(src@, p as int) == number_stop(src@, pos as int),
        decreases src@.len() - p,
    {
        p += 1;
    }
    p
}

/// The position past the literal `word` at `i`, or the end of the input.
pub open spec fn literal_stop(s: Seq<u8>, i: int, word: Seq<u8>) -> int {
    if word_at(s, i, word) {
        i + word.len()
    } else {
        s.len() as int
    }
}

/// The position past the primitive at `i`. A broken string or literal runs
/// to the end of the input; a byte that starts no primitive takes no room.
pub open spec fn inline_end(s: Seq<u8>, i: int) -> int {
    if !(0 <= i < s.len()) {
        i
    } else if s[i] == 0x22 {
        match string_at(s, i) {
            Some(q) => q + 1,
            None => s.len() as int,
        }
    } else if s[i] == 0x74 {
        literal_stop(s, i, true_word())
    } else if s[i] == 0x66 {
        literal_stop(s, i, false_word())
    } else if s[i] == 0x6E {
        literal_stop(s, i, null_word())
    } else if s[i] == 0x2D || is_digit(s[i]) {
        number_stop(s, i)
    } else {
        i
    }
}

pub proof fn inline_end_range(s: Seq<u8>, i: int)
    requires
        0 <= i <= s.len(),
    ensures
        i <= inline_end(s, i) <= s.len(),
{
    if i < s.len() {
        if s[i] == 0x22 {
            if string_at(s, i) is Some {
                closing_quote_range(s, i + 1);
            }
        } else {
            number_stop_range(s, i);
        }
    }
}

pub proof fn number_stop_range(s: Seq<u8>, i: int)
    requires
        0 <= i <= s.len(),
    ensures
        i <= number_stop(s, i) <= s.len(),
    decreases s.len() - i,
{
    if i < s.len() && is_number_byte(s[i]) {
        number_stop_range(s, i + 1);
    }
}

/// Whether the bytes of `word` stand at `pos`.
pub fn starts_with_at(src: &[u8], pos: usize, word: &[u8]) -> (r: bool)
    requires
        pos <= src@.len(),
    ensures
        r == word_at(src@, pos as int, word@),
{
    let n: usize = word.len();
    if n > src.len() - pos {
        return false;
    }
    let mut k: usize = 0;
    while k < n
        invariant
            n == word@.len(),
            k <= n,
            pos + n <= src@.len() <= usize::MAX,
            forall|j: int|
                0 <= j < k ==> #[trigger] word@[j] == src@.subrange(pos as int, pos + n)[j],
        decreases n - k,
    {
        if src[pos + k] != word[k] {
            assert(src@.subrange(pos as int, pos + n)[k as int] != word@[k as int]);
            return false;
        }
        k += 1;
    }
    assert(src@.subrange(pos as int, pos + n) =~= word@);
    true
}

/// Moves past the literal `word` at `pos`.
fn skip_literal(src: &[u8], pos: usize, word: &[u8]) -> (end: usize)
    requires
        pos <= src@.len(),
    ensures
        end == literal_stop(src@, pos as int, word@),
        end <= src@.len(),
{
    let size: usize = src.len();
    if starts_with_at(src, pos, word) {
        pos + word.len()
    } else {
        size
    }
}

/// Moves past the primitive at `pos`.
pub fn skip_inline_value(src: &[u8], pos: usize) -> (end: usize)
    requires
        pos <= src@.len(),
    ensures
        end == inline_end(src@, pos as int),
        pos <= end <= src@.len(),
{
    proof {
        inline_end_range(src@, pos as int);
    }
    if pos >= src.len() {
        return pos;
    }
    match src[pos] {
        0x22 => match skip_string(src, pos) {
            Some(e) => e,
            None => src.len(),
        },
        0x74 => skip_literal(src, pos, &[0x74u8, 0x72u8, 0x75u8, 0x65u8]),
        0x66 => skip_literal(src, pos, &[0x66u8, 0x61u8, 0x6Cu8, 0x73u8, 0x65u8]),
        0x6E => skip_literal(src, pos, &[0x6Eu8, 0x75u8, 0x6Cu8, 0x6Cu8]),
        0x2D | 0x30..=0x39 => skip_number(src, pos),
        _ => pos,
    }
}

/// The stored kind of the value that starts with byte `b`.
pub open spec fn kind_of_byte(b: u8) -> u8 {
    if b == 0x22 {
        3
    } else if b == 0x74 || b == 0x66 {
        1
    } else if b == 0x2D || is_digit(b) {
        2
    } else if b == 0x5B {
        4
    } else if b == 0x7B {
        5
    } else {
        0
    }
}

/// The stored kind of the value at `i`.
pub open spec fn kind_at(s: Seq<u8>, i: int) -> u8 {
    if 0 <= i < s.len() {
        kind_of_byte(s[i])
    } else {
        0
    }
}

/// The stored kind of the value at `pos`, told by its first byte.
pub fn peek_kind(src: &[u8], pos: usize) -> (k: u8)
    ensures
        k == kind_at(src@, pos as int),
{
    if pos >= src.len() {
        return 0;
    }
    match src[pos] {
        0x22 => 3,
        0x74 | 0x66 => 1,
        0x2D | 0x30..=0x39 => 2,
        0x5B => 4,
        0x7B => 5,
        _ => 0,
    }
}

/// `text` in front of `rest`, if there is a rest.
pub open spec fn join_text(text: Seq<u8>, rest: Option<Seq<u8>>) -> Option<Seq<u8>> {
    match rest {
        Some(r) => Some(text + r),
        None => None,
    }
}

/// The text that the string inside `s`, from `i` on, decodes to; `None` for
/// a malformed escape.
pub open spec fn decoded_from(s: Seq<u8>, i: int) -> Option<Seq<u8>>
    decreases s.len() - i,
{
    if !(0 <= i < s.len()) {
        Some(Seq::empty())
    } else if s[i] != 0x5C {
        join_text(seq![s[i]], decoded_from(s, i + 1))
    } else if at(s, i + 1, 0x75) {
        match unicode_escape(s, i + 2) {
            Err(_) => None,
            Ok((end, code)) => {
                proof {
                    unicode_escape_range(s, i + 2);
                }
                join_text(utf8_bytes(code), decoded_from(s, end))
            },
        }
    } else if i + 1 < s.len() && short_escape(s[i + 1]) is Some {
        join_text(seq![short_escape(s[i + 1])->0], decoded_from(s, i + 2))
    } else {
        None
    }
}

/// The text of a string, given the raw bytes between its quotes.
pub open spec fn decoded(raw: Seq<u8>) -> Option<Seq<u8>> {
    decoded_from(raw, 0)
}

/// The value of the four hexadecimal digits at `i`.
fn read_hex4(s: &[u8], i: usize) -> (r: Option<u32>)
    requires
        i <= s@.len(),
    ensures
        hex_stop(s@, i as int, 4) == i + 4 ==> (r matches Some(v) && v == hex4(s@, i as int) && v
            <= 0xFFFF),
        hex_stop(s@, i as int, 4) != i + 4 ==> r is None,
        r is Some ==> i + 4 <= s@.len(),
{
    proof {
        hex_stop_range(s@, i as int, 4);
    }
    if s.len() - i < 4 {
        return None;
    }
    let mut code: u32 = 0;
    let mut k: usize = 0;
    while k < 4
        invariant
            k <= 4,
            i + 4 <= s@.len() <= usize::MAX,
            hex_stop(s@, i as int, 4) == hex_stop(s@, i + k, (4 - k) as nat),
            k == 0 ==> code == 0,
            k == 1 ==> code == hex_value(s@[i as int]),
            k == 2 ==> code == hex_value(s@[i as int]) * 16 + hex_value(s@[i + 1]),
            k == 3 ==> code == hex_value(s@[i as int]) * 256 + hex_value(s@[i + 1]) * 16
                + hex_value(s@[i + 2]),
            k == 4 ==> code == hex4(s@, i as int),
            k == 0 ==> code < 1,
            k == 1 ==> code < 16,
            k == 2 ==> code < 256,
            k == 3 ==> code < 4096,
            k == 4 ==> code < 65536,
        decreases 4 - k,
    {
        let c: u8 = s[i + k];
        let v: u32 = if c >= 0x30 && c <= 0x39 {
            (c - 0x30) as u32
        } else if c >= 0x61 && c <= 0x66 {
            (c - 0x61 + 10) as u32
        } else if c >= 0x41 && c <= 0x46 {
            (c - 0x41 + 10) as u32
        } else {
            return None;
        };
        code = code * 16 + v;
        k += 1;
    }
    Some(code)
}

/// The code point of the `\u` escape whose digits start at `i`, with the
/// position past it.
fn read_unicode_escape(s: &[u8], i: usize) -> (r: Option<(usize, u32)>)
    requires
        i <= s@.len(),
    ensures
        match unicode_escape(s@, i as int) {
            Ok((end, code)) => r matches Some((e, c)) && e == end && c == code && c <= 0x10FFFF
                && i < e <= s@.len(),
            Err(_) => r is None,
        },
{
    proof {
        if unicode_escape(s@, i as int) is Ok {
            unicode_escape_range(s@, i as int);
        }
    }
    let size: usize = s.len();
    let high: u32 = match read_hex4(s, i) {
        Some(h) => h,
        None => return None,
    };
    if high >= 0xD800 && high <= 0xDBFF {
        if size - i < 6 || s[i + 4] != 0x5C || s[i + 5] != 0x75 {
            return None;
        }
        match read_hex4(s, i + 6) {
            Some(low) => if low >= 0xDC00 && low <= 0xDFFF {
                Some((i + 10, 0x10000 + (high - 0xD800) * 0x400 + (low - 0xDC00)))
            } else {
                None
            },
            None => None,
        }
    } else if high >= 0xDC00 && high <= 0xDFFF {
        None
    } else {
        Some((i + 4, high))
    }
}

/// Decodes the raw bytes between the quotes of a JSON string; `None` on a
/// malformed escape.
pub fn decode_json_string_inner(raw: &[u8]) -> (r: Option<Vec<u8>>)
    ensures
        match decoded(raw@) {
            Some(text) => r matches Some(v) && v@ == text,
            None => r is None,
        },
{
    let mut out: Vec<u8> = Vec::new();
    let size: usize = raw.len();
    let mut i: usize = 0;
    proof {
        if decoded(raw@) is Some {
            assert(out@ + decoded(raw@)->0 =~= decoded(raw@)->0);
        }
    }
    while i < size
        invariant
            size == raw@.len(),
            i <= size,
            decoded(raw@) == join_text(out@, decoded_from(raw@, i as int)),
        decreases raw@.len() - i,
    {
        let c: u8 = raw[i];
        let ghost before = out@;
        let ghost from = i as int;
        if c != 0x5C {
            out.push(c);
            i += 1;
            proof {
                assert(out@ =~= before + seq![c]);
                join_join(before, seq![c], decoded_from(raw@, i as int));
            }
        } else if i + 1 < size && raw[i + 1] == 0x75 {
            match read_unicode_escape(raw, i + 2) {
                Some((end, code)) => {
                    let bytes = encode_utf8(code);
                    out.extend_from_slice(bytes.as_slice());
                    i = end;
                    proof {
                        assert(out@ =~= before + bytes@);
                        join_join(before, bytes@, decoded_from(raw@, i as int));
                    }
                },
                None => {
                    return None;
                },
            }
        } else if i + 1 < size {
            let b: u8 = match raw[i + 1] {
                0x22 | 0x5C | 0x2F => raw[i + 1],
                0x62 => 0x08,
                0x66 => 0x0C,
                0x6E => 0x0A,
                0x72 => 0x0D,
                0x74 => 0x09,
                _ => {
                    return None;
                },
            };
            out.push(b);
            i += 2;
            proof {
                assert(out@ =~= before + seq![b]);
                join_join(before, seq![b], decoded_from(raw@, i as int));
            }
        } else {
            return None;
        }
    }
    assert(out@ + Seq::<u8>::empty() =~= out@);
    Some(out)
}

proof fn join_join(a: Seq<u8>, b: Seq<u8>, rest: Option<Seq<u8>>)
    ensures
        join_text(a, join_text(b, rest)) == join_text(a + b, rest),
{
    if rest is Some {
        assert(a + (b + rest->0) =~= (a + b) + rest->0);
    }
}

/// The text of the string at `i`, with the position past its closing quote.
/// The text is `None` where no whole string stands there or an escape in it
/// is malformed.
pub open spec fn string_view(s: Seq<u8>, i: int) -> Option<Seq<u8>> {
    match string_at(s, i) {
        Some(q) => decoded(s.subrange(i + 1, q)),
        None => None,
    }
}

/// Reads and decodes the string at `pos`. Returns its text, and the position
/// past its closing quote (the end of the input where there is none).
pub fn parse_string_decoded(src: &[u8], pos: usize) -> (r: (Option<Vec<u8>>, usize))
    requires
        at(src@, pos as int, 0x22),
    ensures
        match string_view(src@, pos as int) {
            Some(text) => r.0 matches Some(v) && v@ == text,
            None => r.0 is None,
        },
        r.1 == inline_end(src@, pos as int),
        pos < r.1 <= src@.len(),
{
    let size: usize = src.len();
    match find_string(src, pos) {
        Some(q) => {
            let raw = vstd::slice::slice_subrange(src, pos + 1, q);
            (decode_json_string_inner(raw), q + 1)
        },
        None => (None, size),
    }
}

} // verus!
