//! Decimal numerals, such as `12`, `1e3` or `2.50e1`: their plain form, and the
//! whole numbers among them.
use vstd::prelude::*;

use super::lexer::{
    char_at, digit_char_at, digit_end, digit_end_range, exponent_at, exponent_digits, mantissa_end,
};
use crate::error::Fault;
use crate::json::number_end;
use crate::parser::{KeySink, Parser, RecordSink};
use crate::sidecar::{utf8, utf8_of};
use crate::text::{ascii_digit, chars_of, string_from};

verus! {

/// The value of a decimal digit.
pub open spec fn digit_of(c: char) -> nat {
    (c as u32 - 0x30) as nat
}

/// Where the digits of a numeral start.
pub open spec fn first_digit(s: Seq<char>) -> int {
    if char_at(s, 0, '-') {
        1
    } else {
        0
    }
}

/// The digits before and after the decimal point.
pub open spec fn digits(s: Seq<char>) -> Seq<char> {
    let a = first_digit(s);
    let b = digit_end(s, a);
    let m = mantissa_end(s, 0);
    if char_at(s, b, '.') {
        s.subrange(a, b) + s.subrange(b + 1, m)
    } else {
        s.subrange(a, b)
    }
}

/// The number that the digits `d[..n]` write; digits missing at the end
/// count as zeros.
pub open spec fn prefix_value(d: Seq<char>, n: nat) -> nat
    decreases n,
{
    if n == 0 {
        0
    } else {
        prefix_value(d, (n - 1) as nat) * 10 + if n <= d.len() {
            digit_of(d[n - 1])
        } else {
            0
        }
    }
}

/// The digits of the exponent whose marker stands at `m`.
pub open spec fn exponent_text(s: Seq<char>, m: int) -> Seq<char> {
    let e = exponent_digits(s, m);
    s.subrange(e, digit_end(s, e))
}

/// The exponent of a numeral.
pub open spec fn exponent(s: Seq<char>) -> int {
    let m = mantissa_end(s, 0);
    if exponent_at(s, m) {
        let e = exponent_text(s, m);
        let size = prefix_value(e, e.len()) as int;
        if char_at(s, m + 1, '-') {
            -size
        } else {
            size
        }
    } else {
        0
    }
}

/// How many of the digits stand before the decimal point, once the exponent
/// has moved it.
pub open spec fn point(s: Seq<char>) -> int {
    digit_end(s, first_digit(s)) - first_digit(s) + exponent(s)
}

/// All digits from position `i` on are zero.
pub open spec fn zeros_from(d: Seq<char>, i: int) -> bool {
    forall|k: int| 0 <= k < d.len() && i <= k ==> (#[trigger] d[k]) == '0'
}

/// The whole number that the numeral writes, without its sign; none if it
/// has a fraction.
pub open spec fn magnitude(s: Seq<char>) -> Option<nat> {
    whole_at(digits(s), point(s))
}

/// The whole number that the digits `d` write with `p` of them before the
/// decimal point.
pub open spec fn whole_at(d: Seq<char>, p: int) -> Option<nat> {
    if !zeros_from(d, p) {
        None
    } else if p <= 0 {
        Some(0)
    } else {
        Some(prefix_value(d, p as nat))
    }
}

/// A whole number brought into the range of `u64`.
pub open spec fn clamp_u64(n: nat) -> u64 {
    if n > u64::MAX {
        u64::MAX
    } else {
        n as u64
    }
}

/// The whole number that the numeral writes, in the range of `i64`.
pub open spec fn whole_i64(s: Seq<char>) -> Option<i64> {
    match magnitude(s) {
        None => None,
        Some(n) => Some(
            if char_at(s, 0, '-') {
                if n > 0x8000_0000_0000_0000 {
                    i64::MIN
                } else {
                    (-(n as int)) as i64
                }
            } else if n > i64::MAX {
                i64::MAX
            } else {
                n as i64
            },
        ),
    }
}

proof fn digits_are_digits(s: Seq<char>, i: int, k: int)
    requires
        0 <= i <= k < digit_end(s, i),
    ensures
        digit_char_at(s, k),
    decreases s.len() - i,
{
    if k > i {
        digits_are_digits(s, i + 1, k);
    }
}

/// More digits never make a prefix smaller, and once it is positive each
/// makes it larger.
proof fn prefix_grows(d: Seq<char>, m: nat, n: nat)
    requires
        m <= n,
    ensures
        prefix_value(d, m) <= prefix_value(d, n),
        prefix_value(d, m) > 0 ==> prefix_value(d, n) >= prefix_value(d, m) + (n - m),
    decreases n,
{
    if m < n {
        prefix_grows(d, m, (n - 1) as nat);
    }
}

proof fn prefix_stays_zero(d: Seq<char>, n: nat)
    requires
        n >= d.len(),
        prefix_value(d, d.len()) == 0,
    ensures
        prefix_value(d, n) == 0,
    decreases n,
{
    if n > d.len() {
        prefix_stays_zero(d, (n - 1) as nat);
    }
}

/// The number that the first `n` of the digits write, at most `u64::MAX`.
fn prefix_clamped(d: &Vec<char>, n: u128) -> (v: u64)
    requires
        forall|k: int| 0 <= k < d@.len() ==> ascii_digit(#[trigger] d@[k]),
    ensures
        v == clamp_u64(prefix_value(d@, n as nat)),
{
    let size: usize = d.len();
    let mut v: u64 = 0;
    let mut i: u128 = 0;
    while i < n
        invariant
            forall|k: int| 0 <= k < d@.len() ==> ascii_digit(#[trigger] d@[k]),
            size == d@.len(),
            i <= n,
            v == prefix_value(d@, i as nat),
        decreases n - i,
    {
        if i >= size as u128 && v == 0 {
            proof {
                prefix_grows(d@, size as nat, i as nat);
                prefix_stays_zero(d@, n as nat);
            }
            return 0;
        }
        let x: u64 = if i < size as u128 {
            (d[i as usize] as u32 - 0x30) as u64
        } else {
            0
        };
        if v > (u64::MAX - x) / 10 {
            proof {
                prefix_grows(d@, (i + 1) as nat, n as nat);
            }
            return u64::MAX;
        }
        v = v * 10 + x;
        i += 1;
    }
    v
}

/// An exponent past which every positive number leaves the range of `u64`.
pub const FAR: u128 = 0x1_0000_0000_0000_0000_0000_0000;

/// The number that the digits write, at most `FAR`.
fn exponent_size(d: &Vec<char>) -> (v: u128)
    requires
        forall|k: int| 0 <= k < d@.len() ==> ascii_digit(#[trigger] d@[k]),
    ensures
        v == (if prefix_value(d@, d@.len()) > FAR {
            FAR as nat
        } else {
            prefix_value(d@, d@.len())
        }),
{
    let mut v: u128 = 0;
    let mut i: usize = 0;
    while i < d.len()
        invariant
            forall|k: int| 0 <= k < d@.len() ==> ascii_digit(#[trigger] d@[k]),
            i <= d@.len(),
            v == prefix_value(d@, i as nat),
            v <= FAR,
        decreases d@.len() - i,
    {
        let x: u128 = (d[i] as u32 - 0x30) as u128;
        let next: u128 = v * 10 + x;
        if next > FAR {
            proof {
                prefix_grows(d@, (i + 1) as nat, d@.len());
            }
            return FAR;
        }
        v = next;
        i += 1;
    }
    v
}

/// A numeral taken apart.
struct Parts {
    digits: Vec<char>,
    /// How many digits stand before the point.
    int_len: usize,
    /// By how much the exponent moves the point, at most `FAR`.
    exp: u128,
    /// The exponent moves it to the left.
    negative: bool,
    size: Ghost<nat>,
}

impl Parts {
    spec fn are_of(self, s: Seq<char>) -> bool {
        &&& self.digits@ == digits(s)
        &&& forall|k: int| 0 <= k < self.digits@.len() ==> ascii_digit(#[trigger] self.digits@[k])
        &&& self.int_len <= self.digits@.len()
        &&& self.exp == (if self.size@ > FAR {
            FAR as nat
        } else {
            self.size@
        })
        &&& point(s) == if self.negative {
            self.int_len - self.size@
        } else {
            self.int_len + self.size@
        }
    }
}

fn take_apart(text: &str) -> (r: Parts)
    ensures
        r.are_of(text@),
{
    let chars = chars_of(text);
    let ghost s = chars@;
    let size: usize = chars.len();
    let a: usize = if size > 0 && chars[0] == '-' {
        1
    } else {
        0
    };
    proof {
        digit_end_range(s, a as int);
    }
    let mut d: Vec<char> = Vec::new();
    let b: usize = take_digits(&chars, a, &mut d);
    assert(d@ =~= s.subrange(a as int, b as int));
    let mut m: usize = b;
    if b < size && chars[b] == '.' {
        proof {
            digit_end_range(s, b + 1);
        }
        m = take_digits(&chars, b + 1, &mut d);
    }
    assert(m == mantissa_end(s, 0));
    assert(d@ =~= digits(s));
    proof {
        assert forall|k: int| 0 <= k < d@.len() implies ascii_digit(#[trigger] d@[k]) by {
            if k < b - a {
                digits_are_digits(s, a as int, a + k);
            } else {
                digits_are_digits(s, b + 1, b + 1 + k - (b - a));
            }
        }
    }
    let mut exp: u128 = 0;
    let mut negative: bool = false;
    let ghost mut moved = false;
    if m < size && (chars[m] == 'e' || chars[m] == 'E') {
        proof {
            moved = true;
        }
        negative = m + 1 < size && chars[m + 1] == '-';
        let from: usize = if m + 1 < size && (chars[m + 1] == '+' || chars[m + 1] == '-') {
            m + 2
        } else {
            m + 1
        };
        proof {
            digit_end_range(s, from as int);
        }
        let mut e: Vec<char> = Vec::new();
        let _end: usize = take_digits(&chars, from, &mut e);
        assert(e@ =~= exponent_text(s, m as int));
        proof {
            assert forall|k: int| 0 <= k < e@.len() implies ascii_digit(#[trigger] e@[k]) by {
                digits_are_digits(s, from as int, from + k);
            }
        }
        exp = exponent_size(&e);
    }
    let ghost mag = if moved {
        let e = exponent_text(s, m as int);
        prefix_value(e, e.len())
    } else {
        0
    };
    Parts { digits: d, int_len: b - a, exp, negative, size: Ghost(mag) }
}

/// The magnitude of a whole numeral, at most `u64::MAX`; `None` if it has a
/// fraction.
pub fn whole_magnitude(text: &str) -> (r: Option<u64>)
    ensures
        match magnitude(text@) {
            Some(n) => r == Some(clamp_u64(n)),
            None => r is None,
        },
{
    let p = take_apart(text);
    shifted(&p.digits, p.int_len, p.exp, p.negative, p.size)
}

/// A text that is a number as JSON writes one.
pub open spec fn json_number(s: Seq<char>) -> bool {
    number_end(utf8_of(s), 0) == Ok::<int, Fault>(utf8_of(s).len() as int)
}

/// Whether a text is a number as JSON writes one.
pub fn is_json_number(text: &str) -> (b: bool)
    ensures
        b == json_number(text@),
{
    let bytes = utf8(text);
    let mut p = Parser::new(bytes.as_slice(), RecordSink::new(0), KeySink::new(0));
    match p.parse_number() {
        Ok(_) => p.pos == bytes.len(),
        Err(_) => false,
    }
}

/// Whether a numeral writes zero.
pub fn is_zero(text: &str) -> (b: bool)
    ensures
        b == zeros_from(digits(text@), 0),
{
    let p = take_apart(text);
    all_zero_from(&p.digits, 0)
}

/// How far the point may move for a numeral to be written out.
pub const WIDE: i128 = 400;

pub open spec fn zeros(n: nat) -> Seq<char> {
    Seq::new(n, |i: int| '0')
}

/// Digits without the zeros in front.
pub open spec fn bare_whole(d: Seq<char>) -> Seq<char>
    decreases d.len(),
{
    if d.len() > 0 && d[0] == '0' {
        bare_whole(d.skip(1))
    } else {
        d
    }
}

/// Digits without the zeros at the end.
pub open spec fn bare_fraction(d: Seq<char>) -> Seq<char>
    decreases d.len(),
{
    if d.len() > 0 && d.last() == '0' {
        bare_fraction(d.drop_last())
    } else {
        d
    }
}

/// The digits `d` with a point after `p` of them, without superfluous zeros.
pub open spec fn written_out(d: Seq<char>, p: int) -> Seq<char> {
    let whole = bare_whole(
        if p <= 0 {
            Seq::empty()
        } else if p <= d.len() {
            d.take(p)
        } else {
            d + zeros((p - d.len()) as nat)
        },
    );
    let fraction = bare_fraction(
        if p >= d.len() {
            Seq::empty()
        } else if p >= 0 {
            d.skip(p)
        } else {
            zeros((-p) as nat) + d
        },
    );
    (if whole.len() == 0 {
        seq!['0']
    } else {
        whole
    }) + (if fraction.len() == 0 {
        Seq::empty()
    } else {
        seq!['.'] + fraction
    })
}

/// A numeral without its sign in plain digits: no exponent, no superfluous
/// zeros. One whose point moves far stays as it is.
pub open spec fn plain_size(s: Seq<char>) -> Seq<char> {
    if zeros_from(digits(s), 0) {
        seq!['0']
    } else if -WIDE <= point(s) <= WIDE {
        written_out(digits(s), point(s))
    } else {
        s.skip(first_digit(s))
    }
}

/// A numeral in plain digits.
pub open spec fn plain(s: Seq<char>) -> Seq<char> {
    if char_at(s, 0, '-') {
        seq!['-'] + plain_size(s)
    } else {
        plain_size(s)
    }
}

/// The digits from the first that is no zero on.
fn without_leading(d: &Vec<char>) -> (r: Vec<char>)
    ensures
        r@ == bare_whole(d@),
{
    let mut i: usize = 0;
    assert(d@.skip(0) =~= d@);
    while i < d.len() && d[i] == '0'
        invariant
            i <= d@.len(),
            bare_whole(d@.skip(i as int)) == bare_whole(d@),
        decreases d@.len() - i,
    {
        assert(d@.skip(i as int).skip(1) =~= d@.skip(i + 1));
        i += 1;
    }
    let mut out: Vec<char> = Vec::new();
    out.extend_from_slice(vstd::slice::slice_subrange(d.as_slice(), i, d.len()));
    assert(out@ =~= d@.skip(i as int));
    out
}

/// Writes out digits with a point after `p` of them.
fn write_out(d: &Vec<char>, p: i128) -> (r: Vec<char>)
    requires
        -WIDE <= p <= WIDE,
    ensures
        r@ == written_out(d@, p as int),
{
    let n: usize = d.len();
    let mut whole: Vec<char> = Vec::new();
    let mut fraction: Vec<char> = Vec::new();
    if p <= 0 {
        let gap: usize = (-p) as usize;
        while fraction.len() < gap
            invariant
                gap == -p,
                fraction@ == zeros(fraction@.len()),
                fraction@.len() <= gap,
            decreases gap - fraction@.len(),
        {
            fraction.push('0');
            assert(fraction@ =~= zeros(fraction@.len()));
        }
        fraction.extend_from_slice(d.as_slice());
        assert(fraction@ =~= zeros((-p) as nat) + d@);
        assert(zeros(0) + d@ =~= d@.skip(0));
        if n == 0 && p == 0 {
            assert(fraction@ =~= Seq::empty());
        }
        assert(whole@ =~= Seq::empty());
    } else {
        let k: usize = p as usize;
        if k <= n {
            whole.extend_from_slice(vstd::slice::slice_subrange(d.as_slice(), 0, k));
            fraction.extend_from_slice(vstd::slice::slice_subrange(d.as_slice(), k, n));
            assert(whole@ =~= d@.take(p as int));
            assert(fraction@ =~= d@.skip(p as int));
            if k == n {
                assert(fraction@ =~= Seq::empty());
            }
        } else {
            whole.extend_from_slice(d.as_slice());
            assert(whole@ =~= d@ + zeros(0));
            while whole.len() < k
                invariant
                    n == d@.len(),
                    n <= whole@.len() <= k,
                    whole@ == d@ + zeros((whole@.len() - n) as nat),
                decreases k - whole@.len(),
            {
                whole.push('0');
                assert(whole@ =~= d@ + zeros((whole@.len() - n) as nat));
            }
            assert(fraction@ =~= Seq::empty());
        }
    }
    let mut out = without_leading(&whole);
    let ghost full = fraction@;
    while fraction.len() > 0 && fraction[fraction.len() - 1] == '0'
        invariant
            bare_fraction(fraction@) == bare_fraction(full),
        decreases fraction@.len(),
    {
        let ghost before = fraction@;
        fraction.pop();
        assert(fraction@ =~= before.drop_last());
    }
    if out.len() == 0 {
        out.push('0');
    }
    let ghost head = out@;
    assert(head =~= if bare_whole(whole@).len() == 0 {
        seq!['0']
    } else {
        bare_whole(whole@)
    });
    if fraction.len() > 0 {
        out.push('.');
        out.extend_from_slice(fraction.as_slice());
        assert(out@ =~= head + (seq!['.'] + fraction@));
    } else {
        assert(out@ =~= head + Seq::<char>::empty());
    }
    out
}

/// Writes a numeral in plain digits.
pub fn plain_numeral(text: &str) -> (r: String)
    ensures
        r@ == plain(text@),
{
    let negative: bool = text.unicode_len() > 0 && text.get_char(0) == '-';
    let p = take_apart(text);
    let mut size: Vec<char> = Vec::new();
    if all_zero_from(&p.digits, 0) {
        size.push('0');
        assert(size@ =~= seq!['0']);
    } else {
        let int_len: i128 = p.int_len as i128;
        let exp: i128 = p.exp as i128;
        let at: i128 = if p.negative {
            int_len - exp
        } else {
            int_len + exp
        };
        if -WIDE <= at && at <= WIDE {
            size = write_out(&p.digits, at);
        } else {
            let chars = chars_of(text);
            let from: usize = if negative {
                1
            } else {
                0
            };
            size.extend_from_slice(vstd::slice::slice_subrange(chars.as_slice(), from, chars.len()));
            assert(size@ =~= text@.skip(first_digit(text@)));
        }
    }
    assert(size@ == plain_size(text@));
    let mut out: Vec<char> = Vec::new();
    if negative {
        out.push('-');
    }
    out.extend_from_slice(size.as_slice());
    assert(out@ =~= plain(text@));
    assert(out@.subrange(0, out@.len() as int) =~= out@);
    string_from(out.as_slice(), 0, out.len())
}

/// The whole number that the digits `d` write when the decimal point stands
/// after `int_len` of them and moves by `size`, which `exp` cuts to `FAR`.
fn shifted(d: &Vec<char>, int_len: usize, exp: u128, negative: bool, size: Ghost<nat>) -> (r: Option<
    u64,
>)
    requires
        forall|k: int| 0 <= k < d@.len() ==> ascii_digit(#[trigger] d@[k]),
        int_len <= d@.len(),
        exp == (if size@ > FAR {
            FAR as nat
        } else {
            size@
        }),
    ensures
        match whole_at(
            d@,
            if negative {
                int_len - size@
            } else {
                int_len + size@
            },
        ) {
            Some(n) => r == Some(clamp_u64(n)),
            None => r is None,
        },
{
    let len: usize = d.len();
    if negative {
        if exp >= int_len as u128 {
            // Every digit stands behind the point.
            let ghost p = int_len - size@;
            assert(p <= 0);
            assert(zeros_from(d@, p) == zeros_from(d@, 0));
            if all_zero_from(d, 0) {
                return Some(0);
            } else {
                return None;
            }
        }
        let n: usize = int_len - exp as usize;
        if !all_zero_from(d, n) {
            return None;
        }
        return Some(prefix_clamped(d, n as u128));
    }
    let n: u128 = int_len as u128 + exp;
    if n < len as u128 {
        if !all_zero_from(d, n as usize) {
            return None;
        }
        return Some(prefix_clamped(d, n));
    }
    let ghost p = int_len + size@;
    assert(zeros_from(d@, p));
    let v: u64 = prefix_clamped(d, n);
    proof {
        if p > n {
            // The exponent was cut.
            prefix_grows(d@, n as nat, p as nat);
            if prefix_value(d@, d@.len()) == 0 {
                prefix_stays_zero(d@, p as nat);
                prefix_stays_zero(d@, n as nat);
            } else {
                prefix_grows(d@, d@.len(), n as nat);
            }
        }
    }
    Some(v)
}

/// Appends the digits that stand at `i` to `out` and returns where they end.
fn take_digits(chars: &Vec<char>, i: usize, out: &mut Vec<char>) -> (end: usize)
    requires
        i <= chars@.len(),
    ensures
        end == digit_end(chars@, i as int),
        i <= end <= chars@.len(),
        final(out)@ == old(out)@ + chars@.subrange(i as int, end as int),
{
    let mut p: usize = i;
    assert(out@ =~= old(out)@ + chars@.subrange(i as int, i as int));
    while p < chars.len() && chars[p] >= '0' && chars[p] <= '9'
        invariant
            i <= p <= chars@.len(),
            digit_end(chars@, p as int) == digit_end(chars@, i as int),
            out@ == old(out)@ + chars@.subrange(i as int, p as int),
        decreases chars@.len() - p,
    {
        out.push(chars[p]);
        p += 1;
        assert(out@ =~= old(out)@ + chars@.subrange(i as int, p as int));
    }
    p
}

/// Whether all digits from position `i` on are zero.
fn all_zero_from(d: &Vec<char>, i: usize) -> (b: bool)
    ensures
        b == zeros_from(d@, i as int),
{
    let mut k: usize = i;
    while k < d.len()
        invariant
            i <= k,
            forall|j: int| 0 <= j < d@.len() && i <= j < k ==> (#[trigger] d@[j]) == '0',
        decreases d@.len() - k,
    {
        if d[k] != '0' {
            return false;
        }
        k += 1;
    }
    true
}

/// The whole number that a numeral writes, in the range of `i64`.
pub fn parse_whole(text: &str) -> (r: Option<i64>)
    ensures
        r == whole_i64(text@),
{
    let negative: bool = text.unicode_len() > 0 && text.get_char(0) == '-';
    match whole_magnitude(text) {
        None => None,
        Some(n) => Some(
            if negative {
                if n >= 0x8000_0000_0000_0000 {
                    i64::MIN
                } else {
                    -(n as i64)
                }
            } else if n > i64::MAX as u64 {
                i64::MAX
            } else {
                n as i64
            },
        ),
    }
}

} // verus!
