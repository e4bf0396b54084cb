//! Comparison of values.
use vstd::prelude::*;

use super::super::ast::CompareOp;
use super::super::number::{nums, Numbers};
use super::super::order::Rank;
use super::super::value::{scalar, scalars_equal, scalars_rank, Scalar, ScalarV, Value};
use crate::document::Document;
use crate::text::chars_of;

verus! {

pub open spec fn starts_with(a: Seq<char>, b: Seq<char>) -> bool {
    b.len() <= a.len() && a.subrange(0, b.len() as int) == b
}

pub open spec fn ends_with(a: Seq<char>, b: Seq<char>) -> bool {
    b.len() <= a.len() && a.subrange(a.len() - b.len(), a.len() as int) == b
}

pub open spec fn contains(a: Seq<char>, b: Seq<char>) -> bool {
    exists|i: int| 0 <= i <= a.len() - b.len() && #[trigger] a.subrange(i, i + b.len()) == b
}

/// The text `s` from `i` on matches the pattern `p` from `j` on: `*` stands
/// for any run of characters, `?` for exactly one.
pub open spec fn glob(s: Seq<char>, i: int, p: Seq<char>, j: int) -> bool
    decreases p.len() - j, s.len() - i,
{
    if j >= p.len() {
        i >= s.len()
    } else if p[j] == '*' {
        glob(s, i, p, j + 1) || (i < s.len() && glob(s, i + 1, p, j))
    } else {
        i < s.len() && (p[j] == '?' || p[j] == s[i]) && glob(s, i + 1, p, j + 1)
    }
}

pub open spec fn text_compare(a: Seq<char>, op: CompareOp, b: Seq<char>) -> bool {
    match op {
        CompareOp::Contains => contains(a, b),
        CompareOp::StartsWith => starts_with(a, b),
        CompareOp::EndsWith => ends_with(a, b),
        _ => glob(a, 0, b, 0),
    }
}

/// The outcome of a comparison. Orders across kinds, and text tests on what
/// is no text, do not hold.
pub open spec fn compared(a: ScalarV, op: CompareOp, b: ScalarV) -> bool {
    match op {
        CompareOp::Eq => scalars_equal(a, b),
        CompareOp::Ne => !scalars_equal(a, b),
        CompareOp::Lt => scalars_rank(a, b) == Some(Rank::Less),
        CompareOp::Le => scalars_rank(a, b) == Some(Rank::Less) || scalars_rank(a, b) == Some(
            Rank::Equal,
        ),
        CompareOp::Gt => scalars_rank(a, b) == Some(Rank::Greater),
        CompareOp::Ge => scalars_rank(a, b) == Some(Rank::Greater) || scalars_rank(a, b) == Some(
            Rank::Equal,
        ),
        _ => match (a, b) {
            (ScalarV::Str(x), ScalarV::Str(y)) => text_compare(x, op, y),
            _ => false,
        },
    }
}

/// `b` stands in `a` at `i`.
fn text_at(a: &Vec<char>, b: &Vec<char>, i: usize) -> (r: bool)
    requires
        i + b@.len() <= a@.len(),
    ensures
        r == (a@.subrange(i as int, i + b@.len()) == b@),
{
    let _size: usize = a.len();
    let mut k: usize = 0;
    while k < b.len()
        invariant
            i + b@.len() <= a@.len() <= usize::MAX,
            k <= b@.len(),
            forall|m: int| 0 <= m < k ==> a@[i + m] == b@[m],
        decreases b@.len() - k,
    {
        if a[i + k] != b[k] {
            assert(a@.subrange(i as int, i + b@.len())[k as int] != b@[k as int]);
            return false;
        }
        k += 1;
    }
    assert(a@.subrange(i as int, i + b@.len()) =~= b@);
    true
}

fn text_contains(a: &Vec<char>, b: &Vec<char>) -> (r: bool)
    ensures
        r == contains(a@, b@),
{
    let n = a.len();
    let m = b.len();
    if m > n {
        return false;
    }
    let mut i: usize = 0;
    while i <= n - m
        invariant
            n == a@.len(),
            m == b@.len(),
            m <= n,
            i <= n - m + 1,
            forall|k: int| 0 <= k < i ==> #[trigger] a@.subrange(k, k + m) != b@,
        decreases n - m + 1 - i,
    {
        if text_at(a, b, i) {
            return true;
        }
        if i == n - m {
            assert forall|k: int| 0 <= k <= a@.len() - b@.len() implies #[trigger] a@.subrange(
                k,
                k + b@.len(),
            ) != b@ by {}
            return false;
        }
        i += 1;
    }
    false
}

/// Whether `s` matches the pattern `p`. Works from the pattern's end: `row`
/// says from which positions the rest of the pattern matches.
pub fn glob_match(s: &Vec<char>, p: &Vec<char>) -> (r: bool)
    ensures
        r == glob(s@, 0, p@, 0),
{
    let n = s.len();
    let mut row: Vec<bool> = Vec::new();
    let mut i: usize = 0;
    while i < n
        invariant
            i <= n == s@.len(),
            row@.len() == i,
            forall|k: int| 0 <= k < i ==> #[trigger] row@[k] == glob(s@, k, p@, p@.len() as int),
        decreases n - i,
    {
        row.push(false);
        i += 1;
    }
    row.push(true);
    let mut j: usize = p.len();
    while j > 0
        invariant
            n == s@.len(),
            j <= p@.len(),
            row@.len() == n + 1,
            forall|k: int| 0 <= k <= n ==> #[trigger] row@[k] == glob(s@, k, p@, j as int),
        decreases j,
    {
        j -= 1;
        row = glob_row(s, p, j, &row);
    }
    row[0]
}

/// The row of position `j` of the pattern, from that of the next one.
fn glob_row(s: &Vec<char>, p: &Vec<char>, j: usize, below: &Vec<bool>) -> (row: Vec<bool>)
    requires
        j < p@.len(),
        below@.len() == s@.len() + 1,
        forall|k: int| 0 <= k <= s@.len() ==> #[trigger] below@[k] == glob(s@, k, p@, j + 1),
    ensures
        row@.len() == s@.len() + 1,
        forall|k: int| 0 <= k <= s@.len() ==> #[trigger] row@[k] == glob(s@, k, p@, j as int),
{
    let n = s.len();
    let c = p[j];
    let mut row: Vec<bool> = Vec::new();
    let mut i: usize = 0;
    let size: usize = below.len();
    while i < size
        invariant
            i <= size == n + 1,
            row@.len() == i,
        decreases size - i,
    {
        row.push(false);
        i += 1;
    }
    let mut k: usize = size;
    while k > 0
        invariant
            size == n + 1,
            n == s@.len(),
            j < p@.len(),
            c == p@[j as int],
            k <= size,
            row@.len() == size,
            below@.len() == size,
            forall|m: int| 0 <= m <= n ==> #[trigger] below@[m] == glob(s@, m, p@, j + 1),
            forall|m: int| k <= m <= n ==> #[trigger] row@[m] == glob(s@, m, p@, j as int),
        decreases k,
    {
        k -= 1;
        let here: bool = if c == '*' {
            below[k] || (k < n && row[k + 1])
        } else {
            k < n && (c == '?' || c == s[k]) && below[k + 1]
        };
        assert(below@[k as int] == glob(s@, k as int, p@, j + 1));
        if k < n {
            assert(below@[k + 1] == glob(s@, k + 1, p@, j + 1));
            assert(row@[k + 1] == glob(s@, k + 1, p@, j as int));
        }
        assert(here == glob(s@, k as int, p@, j as int));
        row.set(k, here);
    }
    row
}

/// Compares two values.
pub fn compare_values<N: Numbers>(
    doc: &Document,
    num: &N,
    l: &Value,
    op: CompareOp,
    r: &Value,
) -> (b: bool)
    requires
        num.wf(),
    ensures
        b == compared(scalar(*doc, nums(num), l@), op, scalar(*doc, nums(num), r@)),
{
    let x = Scalar::from_value(doc, num, l);
    let y = Scalar::from_value(doc, num, r);
    match op {
        CompareOp::Eq => x.equal(&y),
        CompareOp::Ne => !x.equal(&y),
        CompareOp::Lt => matches!(x.compare(&y), Some(Rank::Less)),
        CompareOp::Le => matches!(x.compare(&y), Some(Rank::Less) | Some(Rank::Equal)),
        CompareOp::Gt => matches!(x.compare(&y), Some(Rank::Greater)),
        CompareOp::Ge => matches!(x.compare(&y), Some(Rank::Greater) | Some(Rank::Equal)),
        _ => match (&x, &y) {
            (Scalar::Str(a), Scalar::Str(b)) => compare_texts(a.as_str(), op, b.as_str()),
            _ => false,
        },
    }
}

fn compare_texts(a: &str, op: CompareOp, b: &str) -> (r: bool)
    ensures
        r == text_compare(a@, op, b@),
{
    let x = chars_of(a);
    let y = chars_of(b);
    match op {
        CompareOp::Contains => text_contains(&x, &y),
        CompareOp::StartsWith => y.len() <= x.len() && text_at(&x, &y, 0),
        CompareOp::EndsWith => y.len() <= x.len() && text_at(&x, &y, x.len() - y.len()),
        _ => glob_match(&x, &y),
    }
}

} // verus!
