//! Whole numbers that are written read back.
use vstd::prelude::*;

use super::super::canonical::int_text;
use super::super::lexer::{char_at, digit_end};
use super::super::numeral::{digits, first_digit, magnitude, point, prefix_value, zeros_from};
use super::ast::PathExprV;
use super::layout_tokens::index_reads;
use crate::text::{ascii_digit, decimal_text, digit_char};

verus! {

/// Numerals are made of digits, and more of them for larger numbers.
pub proof fn decimal_digits(n: nat)
    ensures
        decimal_text(n).len() > 0,
        forall|k: int| 0 <= k < decimal_text(n).len() ==> ascii_digit(#[trigger] decimal_text(n)[k]),
        prefix_value(decimal_text(n), decimal_text(n).len()) == n,
    decreases n,
{
    if n >= 10 {
        decimal_digits(n / 10);
        let head = decimal_text(n / 10);
        let d = decimal_text(n);
        assert(d == head.push(digit_char(n % 10)));
        prefix_same(head, d, head.len());
        assert(ascii_digit(digit_char(n % 10)));
    } else {
        let d = decimal_text(n);
        assert(d =~= seq![digit_char(n)]);
        reveal_with_fuel(prefix_value, 2);
    }
}

proof fn prefix_same(a: Seq<char>, b: Seq<char>, n: nat)
    requires
        n <= a.len(),
        n <= b.len(),
        forall|k: int| 0 <= k < n ==> a[k] == b[k],
    ensures
        prefix_value(a, n) == prefix_value(b, n),
    decreases n,
{
    if n > 0 {
        prefix_same(a, b, (n - 1) as nat);
    }
}

/// Digits run to the end of a numeral.
pub proof fn all_digits(s: Seq<char>, i: int)
    requires
        0 <= i <= s.len(),
        forall|k: int| i <= k < s.len() ==> ascii_digit(#[trigger] s[k]),
    ensures
        digit_end(s, i) == s.len(),
    decreases s.len() - i,
{
    if i < s.len() {
        all_digits(s, i + 1);
    }
}

/// The number that digits write, behind a sign or without one.
pub proof fn digits_read(s: Seq<char>, n: nat)
    requires
        s == decimal_text(n) || s == seq!['-'] + decimal_text(n),
    ensures
        magnitude(s) == Some(n),
        char_at(s, 0, '-') == (s == seq!['-'] + decimal_text(n)),
{
    let d = decimal_text(n);
    decimal_digits(n);
    let a = if s == d {
        0int
    } else {
        1
    };
    assert(s.len() == a + d.len());
    assert forall|k: int| a <= k < s.len() implies ascii_digit(#[trigger] s[k]) by {
        assert(s[k] == d[k - a]);
    }
    if s == d {
        assert(ascii_digit(d[0]));
    }
    assert(first_digit(s) == a);
    all_digits(s, a);
    assert(digits(s) =~= d);
    assert(point(s) == d.len());
    assert(zeros_from(d, d.len() as int));
}

/// A written index reads back.
pub proof fn index_text_reads(i: i64)
    ensures
        index_reads(i),
{
    reveal_strlit("-");
    let s = int_text(i as int);
    if i < 0 {
        let n = (-(i as int)) as nat;
        assert("-"@ =~= seq!['-']);
        digits_read(s, n);
    } else {
        digits_read(s, i as nat);
        decimal_digits(i as nat);
        if s == seq!['-'] + decimal_text(i as nat) {
            assert(s.len() == decimal_text(i as nat).len() + 1);
        }
    }
}

/// The indexes of a path read back.
pub proof fn index_reads_back(p: PathExprV)
    ensures
        forall|k: int|
            0 <= k < p.segments.len() && p.segments[k] is Index ==> index_reads(
                (#[trigger] p.segments[k])->Index_0,
            ),
{
    assert forall|k: int| 0 <= k < p.segments.len() && p.segments[k] is Index implies index_reads(
        (#[trigger] p.segments[k])->Index_0,
    ) by {
        index_text_reads(p.segments[k]->Index_0);
    }
}

} // verus!
