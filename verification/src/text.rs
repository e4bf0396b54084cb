//! Small text utilities shared by the whole crate: decimal numerals,
//! UTF-8 encoding of one code point, and copies between strings and
//! character vectors.
use vstd::prelude::*;

verus! {

/// `std`'s `String::push` appends one character.
pub assume_specification[ std::string::String::push ](s: &mut std::string::String, c: char)
    ensures
        final(s)@ == old(s)@.push(c),
;

/// `std`'s comparison of string slices holds exactly when the characters
/// agree.
pub assume_specification[ <str as PartialEq<str>>::eq ](a: &str, b: &str) -> (r: bool)
    ensures
        r == (a@ == b@),
;

/// What `char::is_alphabetic` says of a character beyond ASCII.
pub uninterp spec fn wide_alphabetic(c: char) -> bool;

/// What `char::is_alphanumeric` says of a character beyond ASCII.
pub uninterp spec fn wide_alphanumeric(c: char) -> bool;

pub open spec fn ascii_letter(c: char) -> bool {
    'a' <= c <= 'z' || 'A' <= c <= 'Z'
}

pub open spec fn ascii_digit(c: char) -> bool {
    '0' <= c <= '9'
}

/// An alphabetic character: among the ASCII characters a letter.
pub open spec fn alphabetic(c: char) -> bool {
    if (c as u32) < 128 {
        ascii_letter(c)
    } else {
        wide_alphabetic(c)
    }
}

/// An alphabetic or numeric character: among the ASCII characters a letter or
/// a digit.
pub open spec fn alphanumeric(c: char) -> bool {
    if (c as u32) < 128 {
        ascii_letter(c) || ascii_digit(c)
    } else {
        wide_alphanumeric(c)
    }
}

/// A character with the Unicode property White_Space.
pub open spec fn whitespace(c: char) -> bool {
    let u = c as u32;
    ||| 0x09 <= u <= 0x0D
    ||| u == 0x20
    ||| u == 0x85
    ||| u == 0xA0
    ||| u == 0x1680
    ||| 0x2000 <= u <= 0x200A
    ||| u == 0x2028
    ||| u == 0x2029
    ||| u == 0x202F
    ||| u == 0x205F
    ||| u == 0x3000
}

/// `std`'s `char::is_alphabetic` tests a Unicode property; among the ASCII
/// characters exactly the letters have it.
pub assume_specification[ char::is_alphabetic ](c: char) -> (r: bool)
    ensures
        (c as u32) < 128 ==> r == ascii_letter(c),
        (c as u32) >= 128 ==> r == wide_alphabetic(c),
;

/// `std`'s `char::is_alphanumeric` holds of alphabetic and of numeric
/// characters; among the ASCII characters these are the letters and digits.
pub assume_specification[ char::is_alphanumeric ](c: char) -> (r: bool)
    ensures
        (c as u32) < 128 ==> r == (ascii_letter(c) || ascii_digit(c)),
        (c as u32) >= 128 ==> r == wide_alphanumeric(c),
;

/// `std`'s `char::is_whitespace` tests the Unicode property White_Space, which
/// the characters of this set have.
pub assume_specification[ char::is_whitespace ](c: char) -> (r: bool)
    ensures
        r == whitespace(c),
;

/// `code` is a Unicode scalar value.
pub open spec fn is_scalar(code: int) -> bool {
    0 <= code < 0xD800 || 0xE000 <= code <= 0x10FFFF
}

/// `std`'s `char::from_u32` gives the character of a Unicode scalar value.
pub assume_specification[ char::from_u32 ](i: u32) -> (r: Option<char>)
    ensures
        r == (if is_scalar(i as int) {
            Some(i as char)
        } else {
            None
        }),
;

/// The decimal digit of value `d`.
pub open spec fn digit_char(d: nat) -> char {
    (0x30 + d) as char
}

/// The decimal numeral of `n`, without leading zeros.
pub open spec fn decimal_text(n: nat) -> Seq<char>
    decreases n,
{
    if n < 10 {
        seq![digit_char(n)]
    } else {
        decimal_text(n / 10).push(digit_char(n % 10))
    }
}

/// The character for the digit `d`.
pub fn digit(d: u64) -> (c: char)
    requires
        d < 10,
    ensures
        c == digit_char(d as nat),
{
    (0x30u8 + d as u8) as char
}

/// Writes `n` in decimal.
pub fn decimal(n: u64) -> (out: String)
    ensures
        out@ == decimal_text(n as nat),
    decreases n,
{
    if n < 10 {
        let mut out = String::new();
        out.push(digit(n));
        proof {
            assert(out@ =~= decimal_text(n as nat));
        }
        out
    } else {
        let mut out = decimal(n / 10);
        out.push(digit(n % 10));
        out
    }
}

/// The characters of a string, as a vector.
pub fn chars_of(s: &str) -> (out: Vec<char>)
    ensures
        out@ == s@,
{
    let mut out: Vec<char> = Vec::new();
    for c in it: s.chars()
        invariant
            out@ == it.seq().take(it.index() as int),
            it.seq() == s@,
    {
        out.push(c);
    }
    out
}

/// The string made of `chars[from..to]`.
pub fn string_from(chars: &[char], from: usize, to: usize) -> (out: String)
    requires
        from <= to <= chars@.len(),
    ensures
        out@ == chars@.subrange(from as int, to as int),
{
    let mut out = String::new();
    let mut i: usize = from;
    while i < to
        invariant
            from <= i <= to <= chars@.len(),
            out@ == chars@.subrange(from as int, i as int),
        decreases to - i,
    {
        out.push(chars[i]);
        i += 1;
        proof {
            assert(chars@.subrange(from as int, i as int) =~= chars@.subrange(
                from as int,
                i - 1,
            ).push(chars@[i - 1]));
        }
    }
    out
}

/// The lower-case hexadecimal digit of value `d`.
pub open spec fn hex_char(d: int) -> char {
    if d < 10 {
        (0x30 + d) as char
    } else {
        (0x57 + d) as char
    }
}

pub fn hex_char_of(d: u8) -> (c: char)
    requires
        d < 16,
    ensures
        c == hex_char(d as int),
{
    if d < 10 {
        (0x30u8 + d) as char
    } else {
        (0x57u8 + d) as char
    }
}

/// How a character is written inside a JSON string.
pub open spec fn json_char(c: char) -> Seq<char> {
    if c == '"' {
        seq!['\\', '"']
    } else if c == '\\' {
        seq!['\\', '\\']
    } else if c == '\n' {
        seq!['\\', 'n']
    } else if c == '\r' {
        seq!['\\', 'r']
    } else if c == '\t' {
        seq!['\\', 't']
    } else if (c as u32) < 0x20 {
        seq!['\\', 'u', '0', '0', hex_char(c as int / 16), hex_char(c as int % 16)]
    } else {
        seq![c]
    }
}

/// The inside of the JSON string for `s`.
pub open spec fn json_escaped(s: Seq<char>) -> Seq<char>
    decreases s.len(),
{
    if s.len() == 0 {
        Seq::empty()
    } else {
        json_escaped(s.drop_last()) + json_char(s.last())
    }
}

/// Appends a backslash and `c`.
fn push_pair(out: &mut String, c: char)
    ensures
        final(out)@ == old(out)@ + seq!['\\', c],
{
    out.push('\\');
    out.push(c);
    assert(out@ =~= old(out)@ + seq!['\\', c]);
}

/// Appends `c` as it is written inside a JSON string.
pub fn push_json_char(out: &mut String, c: char)
    ensures
        final(out)@ == old(out)@ + json_char(c),
{
    match c {
        '"' => push_pair(out, '"'),
        '\\' => push_pair(out, '\\'),
        '\n' => push_pair(out, 'n'),
        '\r' => push_pair(out, 'r'),
        '\t' => push_pair(out, 't'),
        _ => if (c as u32) < 0x20 {
            let code: u8 = c as u8;
            out.push('\\');
            out.push('u');
            out.push('0');
            out.push('0');
            out.push(hex_char_of(code / 16));
            out.push(hex_char_of(code % 16));
            assert(out@ =~= old(out)@ + json_char(c));
        } else {
            out.push(c);
            assert(out@ =~= old(out)@ + json_char(c));
        },
    }
}

/// Appends `s`, escaped for the inside of a JSON string.
pub fn push_json_escaped(out: &mut String, s: &str)
    ensures
        final(out)@ == old(out)@ + json_escaped(s@),
{
    let ghost before = out@;
    let chars = chars_of(s);
    let mut i: usize = 0;
    proof {
        assert(chars@.take(0) =~= Seq::<char>::empty());
        assert(out@ =~= before + json_escaped(chars@.take(0)));
    }
    while i < chars.len()
        invariant
            i <= chars@.len(),
            out@ == before + json_escaped(chars@.take(i as int)),
        decreases chars@.len() - i,
    {
        push_json_char(out, chars[i]);
        proof {
            assert(chars@.take(i + 1).drop_last() =~= chars@.take(i as int));
            assert(out@ =~= before + json_escaped(chars@.take(i + 1)));
        }
        i += 1;
    }
    proof {
        assert(chars@.take(i as int) =~= s@);
    }
}

/// The UTF-8 encoding of a code point.
pub open spec fn utf8_bytes(code: nat) -> Seq<u8> {
    if code < 0x80 {
        seq![code as u8]
    } else if code < 0x800 {
        seq![(0xC0 + code / 0x40) as u8, (0x80 + code % 0x40) as u8]
    } else if code < 0x10000 {
        seq![
            (0xE0 + code / 0x1000) as u8,
            (0x80 + code / 0x40 % 0x40) as u8,
            (0x80 + code % 0x40) as u8,
        ]
    } else {
        seq![
            (0xF0 + code / 0x40000) as u8,
            (0x80 + code / 0x1000 % 0x40) as u8,
            (0x80 + code / 0x40 % 0x40) as u8,
            (0x80 + code % 0x40) as u8,
        ]
    }
}

/// Encodes one character as UTF-8.
pub fn encode_char(c: char) -> (out: Vec<u8>)
    ensures
        out@ == utf8_bytes(c as u32 as nat),
{
    encode_utf8(c as u32)
}

/// Encodes one code point as UTF-8.
pub fn encode_utf8(code: u32) -> (out: Vec<u8>)
    requires
        code <= 0x10FFFF,
    ensures
        out@ == utf8_bytes(code as nat),
{
    let mut out: Vec<u8> = Vec::new();
    if code < 0x80 {
        out.push(code as u8);
    } else if code < 0x800 {
        out.push((0xC0 + code / 0x40) as u8);
        out.push((0x80 + code % 0x40) as u8);
    } else if code < 0x10000 {
        out.push((0xE0 + code / 0x1000) as u8);
        out.push((0x80 + code / 0x40 % 0x40) as u8);
        out.push((0x80 + code % 0x40) as u8);
    } else {
        out.push((0xF0 + code / 0x40000) as u8);
        out.push((0x80 + code / 0x1000 % 0x40) as u8);
        out.push((0x80 + code / 0x40 % 0x40) as u8);
        out.push((0x80 + code % 0x40) as u8);
    }
    proof {
        assert(out@ =~= utf8_bytes(code as nat));
    }
    out
}

} // verus!
