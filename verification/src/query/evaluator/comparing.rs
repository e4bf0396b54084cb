//! What comparisons are for.
use vstd::prelude::*;

use super::super::ast::{CompareOp, JsonTypeKind};
use super::super::number::{finite, num_eq, num_lt};
use super::super::order::{before, text_order};
use super::super::value::{number_of, scalar, truthy, type_of, unquoted, ScalarV, ValueV};
use super::compare::{compared, contains, ends_with, glob, starts_with};
use super::model::CtxV;
use crate::document::NodeKind;

verus! {

/// Equal and unequal are opposites, less and greater are each other's turn,
/// and the weak orders add equality to the strict ones.
pub proof fn comparisons_fit_together(a: ScalarV, b: ScalarV)
    ensures
        compared(a, CompareOp::Ne, b) == !compared(a, CompareOp::Eq, b),
        compared(a, CompareOp::Eq, b) == compared(b, CompareOp::Eq, a),
        compared(a, CompareOp::Lt, b) == compared(b, CompareOp::Gt, a),
        compared(a, CompareOp::Le, b) == compared(b, CompareOp::Ge, a),
        !(compared(a, CompareOp::Lt, b) && compared(a, CompareOp::Gt, b)),
        compared(a, CompareOp::Lt, b) ==> compared(a, CompareOp::Le, b) && !compared(
            a,
            CompareOp::Eq,
            b,
        ),
        !(a is Container) ==> (compared(a, CompareOp::Le, b) == (compared(a, CompareOp::Lt, b)
            || (compared(a, CompareOp::Eq, b)))),
{
    if let (ScalarV::Str(x), ScalarV::Str(y)) = (a, b) {
        text_order(x, y, x);
        text_order(y, x, y);
    }
}

/// Numbers compare by their order, texts by theirs, and false is less than
/// true. Values of different kinds are unequal, and neither is less.
pub proof fn comparisons_follow_the_order(a: ScalarV, b: ScalarV)
    ensures
        a matches ScalarV::Number(x) ==> (b matches ScalarV::Number(y) ==> {
            &&& compared(a, CompareOp::Eq, b) == num_eq(x, y)
            &&& compared(a, CompareOp::Lt, b) == num_lt(x, y)
        }),
        a matches ScalarV::Str(x) ==> (b matches ScalarV::Str(y) ==> {
            &&& compared(a, CompareOp::Eq, b) == (x == y)
            &&& compared(a, CompareOp::Lt, b) == before(x, y)
        }),
        a matches ScalarV::Bool(x) ==> (b matches ScalarV::Bool(y) ==> {
            &&& compared(a, CompareOp::Eq, b) == (x == y)
            &&& compared(a, CompareOp::Lt, b) == (!x && y)
        }),
        a is Null && b is Null ==> compared(a, CompareOp::Eq, b),
        !(a is Number && b is Number) && !(a is Str && b is Str) && !(a is Bool && b is Bool) && !(a
            is Null && b is Null) && !(a is Container && b is Container) ==> !compared(
            a,
            CompareOp::Eq,
            b,
        ) && !compared(a, CompareOp::Lt, b) && !compared(a, CompareOp::Le, b),
{
    if let (ScalarV::Str(x), ScalarV::Str(y)) = (a, b) {
        text_order(x, y, x);
        text_order(y, x, y);
    }
}

/// A text test on anything but two texts does not hold.
pub proof fn text_tests_need_texts(a: ScalarV, b: ScalarV)
    requires
        !(a is Str && b is Str),
    ensures
        !compared(a, CompareOp::Contains, b),
        !compared(a, CompareOp::StartsWith, b),
        !compared(a, CompareOp::EndsWith, b),
        !compared(a, CompareOp::Matches, b),
{
}

/// `contains` holds exactly if the text is something, then the other text,
/// then something; `starts_with` and `ends_with` without the one or the other.
pub proof fn text_tests_find_the_text(a: Seq<char>, b: Seq<char>)
    ensures
        compared(ScalarV::Str(a), CompareOp::Contains, ScalarV::Str(b)) <==> exists|
            p: Seq<char>,
            q: Seq<char>,
        | a == #[trigger] (p + b + q),
        compared(ScalarV::Str(a), CompareOp::StartsWith, ScalarV::Str(b)) <==> exists|q: Seq<char>|
            a == #[trigger] (b + q),
        compared(ScalarV::Str(a), CompareOp::EndsWith, ScalarV::Str(b)) <==> exists|p: Seq<char>|
            a == #[trigger] (p + b),
{
    let n = a.len() as int;
    let m = b.len() as int;
    if contains(a, b) {
        let i = choose|i: int| 0 <= i <= n - m && #[trigger] a.subrange(i, i + m) == b;
        let p = a.subrange(0, i);
        let q = a.subrange(i + m, n);
        assert(a =~= p + b + q) by {
            assert forall|k: int| 0 <= k < n implies a[k] == (p + b + q)[k] by {
                if i <= k < i + m {
                    assert(a.subrange(i, i + m)[k - i] == b[k - i]);
                }
            }
        }
    }
    if exists|p: Seq<char>, q: Seq<char>| a == #[trigger] (p + b + q) {
        let (p, q) = choose|p: Seq<char>, q: Seq<char>| a == #[trigger] (p + b + q);
        let i = p.len() as int;
        assert(a.subrange(i, i + m) =~= b);
    }
    if starts_with(a, b) {
        let q = a.subrange(m, n);
        assert(a =~= b + q) by {
            assert forall|k: int| 0 <= k < n implies a[k] == (b + q)[k] by {
                if k < m {
                    assert(a.subrange(0, m)[k] == b[k]);
                }
            }
        }
    }
    if exists|q: Seq<char>| a == #[trigger] (b + q) {
        let q = choose|q: Seq<char>| a == #[trigger] (b + q);
        assert(a.subrange(0, m) =~= b);
    }
    if ends_with(a, b) {
        let p = a.subrange(0, n - m);
        assert(a =~= p + b) by {
            assert forall|k: int| 0 <= k < n implies a[k] == (p + b)[k] by {
                if k >= n - m {
                    assert(a.subrange(n - m, n)[k - (n - m)] == b[k - (n - m)]);
                }
            }
        }
    }
    if exists|p: Seq<char>| a == #[trigger] (p + b) {
        let p = choose|p: Seq<char>| a == #[trigger] (p + b);
        assert(a.subrange(n - m, n) =~= b);
    }
}

/// A pattern matches a text.
pub open spec fn matches_pattern(s: Seq<char>, p: Seq<char>) -> bool {
    compared(ScalarV::Str(s), CompareOp::Matches, ScalarV::Str(p))
}

proof fn glob_shift(s: Seq<char>, i: int, p: Seq<char>, j: int)
    requires
        0 <= i <= s.len(),
        0 <= j <= p.len(),
    ensures
        glob(s, i, p, j) == glob(s.skip(i), 0, p.skip(j), 0),
{
    assert(s.skip(i).skip(0) =~= s.skip(i));
    assert(p.skip(j).skip(0) =~= p.skip(j));
    glob_moves(s, i, p, j, s.skip(i), 0, p.skip(j), 0);
}

proof fn glob_moves(
    s: Seq<char>,
    i: int,
    p: Seq<char>,
    j: int,
    t: Seq<char>,
    k: int,
    q: Seq<char>,
    l: int,
)
    requires
        0 <= i <= s.len(),
        0 <= j <= p.len(),
        0 <= k <= t.len(),
        0 <= l <= q.len(),
        s.skip(i) == t.skip(k),
        p.skip(j) == q.skip(l),
    ensures
        glob(s, i, p, j) == glob(t, k, q, l),
    decreases p.len() - j, s.len() - i,
{
    assert(s.skip(i).len() == s.len() - i);
    assert(t.skip(k).len() == t.len() - k);
    assert(p.skip(j).len() == p.len() - j);
    assert(q.skip(l).len() == q.len() - l);
    if j < p.len() {
        assert(p.skip(j)[0] == p[j]);
        assert(q.skip(l)[0] == q[l]);
        assert(p.skip(j + 1) =~= p.skip(j).skip(1));
        assert(q.skip(l + 1) =~= q.skip(l).skip(1));
        if i < s.len() {
            assert(s.skip(i)[0] == s[i]);
            assert(t.skip(k)[0] == t[k]);
            assert(s.skip(i + 1) =~= s.skip(i).skip(1));
            assert(t.skip(k + 1) =~= t.skip(k).skip(1));
            glob_moves(s, i + 1, p, j + 1, t, k + 1, q, l + 1);
            if p[j] == '*' {
                glob_moves(s, i + 1, p, j, t, k + 1, q, l);
            }
        }
        if p[j] == '*' {
            glob_moves(s, i, p, j + 1, t, k, q, l + 1);
        }
    }
}

proof fn star_skips(s: Seq<char>, i: int, p: Seq<char>)
    requires
        0 <= i <= s.len(),
        p.len() > 0,
        p[0] == '*',
    ensures
        glob(s, i, p, 0) <==> exists|k: int| i <= k <= s.len() && #[trigger] glob(s, k, p, 1),
    decreases s.len() - i,
{
    if i < s.len() {
        star_skips(s, i + 1, p);
    }
    if glob(s, i, p, 1) {
        assert(i <= i <= s.len() && glob(s, i, p, 1));
    }
}

/// How a pattern matches, from its start on: an empty pattern matches the
/// empty text alone; `*` stands for any run of characters, `?` for one
/// character, and everything else for itself.
pub proof fn patterns_match(s: Seq<char>, p: Seq<char>)
    ensures
        p.len() == 0 ==> (matches_pattern(s, p) <==> s.len() == 0),
        p.len() > 0 && p[0] == '*' ==> (matches_pattern(s, p) <==> exists|k: int|
            0 <= k <= s.len() && #[trigger] matches_pattern(s.skip(k), p.skip(1))),
        p.len() > 0 && p[0] == '?' ==> (matches_pattern(s, p) <==> s.len() > 0 && matches_pattern(
            s.skip(1),
            p.skip(1),
        )),
        p.len() > 0 && p[0] != '*' && p[0] != '?' ==> (matches_pattern(s, p) <==> s.len() > 0
            && s[0] == p[0] && matches_pattern(s.skip(1), p.skip(1))),
{
    if p.len() > 0 {
        if p[0] == '*' {
            star_skips(s, 0, p);
            assert forall|k: int| 0 <= k <= s.len() implies matches_pattern(s.skip(k), p.skip(1))
                == #[trigger] glob(s, k, p, 1) by {
                glob_shift(s, k, p, 1);
            }
            if exists|k: int| 0 <= k <= s.len() && #[trigger] matches_pattern(s.skip(k), p.skip(1)) {
                let k = choose|k: int|
                    0 <= k <= s.len() && #[trigger] matches_pattern(s.skip(k), p.skip(1));
                glob_shift(s, k, p, 1);
                assert(glob(s, k, p, 1));
            }
        } else if s.len() > 0 {
            glob_shift(s, 1, p, 1);
        }
    }
}

/// A pattern without wildcards matches itself and nothing else.
pub proof fn plain_patterns_match_themselves(s: Seq<char>, p: Seq<char>)
    requires
        forall|i: int| 0 <= i < p.len() ==> #[trigger] p[i] != '*' && p[i] != '?',
    ensures
        matches_pattern(s, p) <==> s == p,
    decreases p.len(),
{
    patterns_match(s, p);
    if p.len() == 0 {
        if s.len() == 0 {
            assert(s =~= p);
        }
    } else if s.len() > 0 {
        assert(p[0] != '*');
        let q = p.skip(1);
        assert forall|i: int| 0 <= i < q.len() implies #[trigger] q[i] != '*' && q[i] != '?' by {
            assert(q[i] == p[i + 1]);
        }
        plain_patterns_match_themselves(s.skip(1), q);
        if s.skip(1) == q && s[0] == p[0] {
            assert(s.len() == p.len());
            assert forall|i: int| 0 <= i < s.len() implies s[i] == p[i] by {
                if i > 0 {
                    assert(s.skip(1)[i - 1] == q[i - 1]);
                }
            }
            assert(s =~= p);
        }
    }
}

/// Of the values of a document, only null and false count as false.
pub proof fn null_and_false_are_not_true(c: CtxV, id: u32)
    ensures
        !truthy(c.doc, ValueV::Null),
        !truthy(c.doc, ValueV::Bool(false)),
        truthy(c.doc, ValueV::Bool(true)),
        forall|x: u64| #[trigger] truthy(c.doc, ValueV::Number(x)),
        forall|s: Seq<char>| #[trigger] truthy(c.doc, ValueV::Str(s)),
        c.doc.kind_of(id) == NodeKind::Null ==> !truthy(c.doc, ValueV::Node(id)),
        c.doc.kind_of(id) != NodeKind::Null && c.doc.kind_of(id) != NodeKind::Bool ==> truthy(
            c.doc,
            ValueV::Node(id),
        ),
        c.doc.kind_of(id) == NodeKind::Bool ==> (truthy(c.doc, ValueV::Node(id)) <==> c.doc.value_span(
            id,
        ) == Some(seq![0x74u8, 0x72u8, 0x75u8, 0x65u8])),
{
}

/// The type of a value of the document is that of its text; numbers, texts,
/// booleans, lists and objects that a query makes have theirs.
pub proof fn values_have_their_type(c: CtxV, id: u32, x: u64, s: Seq<char>, b: bool)
    ensures
        type_of(c.doc, ValueV::Number(x)) == JsonTypeKind::Number,
        type_of(c.doc, ValueV::Str(s)) == JsonTypeKind::String,
        type_of(c.doc, ValueV::Bool(b)) == JsonTypeKind::Bool,
        type_of(c.doc, ValueV::Null) == JsonTypeKind::Null,
        forall|v: Seq<ValueV>| #[trigger] type_of(c.doc, ValueV::Array(v)) == JsonTypeKind::Array,
        forall|f: Seq<(Seq<char>, ValueV)>| #[trigger]
            type_of(c.doc, ValueV::Object(f)) == JsonTypeKind::Object,
        type_of(c.doc, ValueV::Node(id)) == JsonTypeKind::Number <==> c.doc.kind_of(id)
            == NodeKind::Number,
        type_of(c.doc, ValueV::Node(id)) == JsonTypeKind::String <==> c.doc.kind_of(id)
            == NodeKind::String,
        type_of(c.doc, ValueV::Node(id)) == JsonTypeKind::Bool <==> c.doc.kind_of(id)
            == NodeKind::Bool,
        type_of(c.doc, ValueV::Node(id)) == JsonTypeKind::Null <==> c.doc.kind_of(id)
            == NodeKind::Null,
        type_of(c.doc, ValueV::Node(id)) == JsonTypeKind::Array <==> c.doc.kind_of(id)
            == NodeKind::Array,
{
}

/// A value of the document compares as what its text spells: a number as it is
/// read, a string without its quotes and escapes, true, false and null as
/// themselves. A value that a query made compares as itself.
pub proof fn values_compare_as_their_text(c: CtxV, id: u32, b: Seq<u8>, x: u64, s: Seq<char>, t: bool)
    requires
        c.doc.value_span(id) == Some(b),
    ensures
        c.doc.kind_of(id) == NodeKind::Number ==> ((c.n.read)(b) matches Some(y) ==> scalar(
            c.doc,
            c.n,
            ValueV::Node(id),
        ) == ScalarV::Number(y) && (finite(y) ==> number_of(c.doc, c.n, ValueV::Node(id)) == Some(
            y,
        ))),
        c.doc.kind_of(id) == NodeKind::String ==> scalar(c.doc, c.n, ValueV::Node(id))
            == ScalarV::Str(unquoted(b)) && number_of(c.doc, c.n, ValueV::Node(id)) is None,
        c.doc.kind_of(id) == NodeKind::Bool ==> scalar(c.doc, c.n, ValueV::Node(id))
            == ScalarV::Bool(b == seq![0x74u8, 0x72u8, 0x75u8, 0x65u8]),
        c.doc.kind_of(id) == NodeKind::Null ==> scalar(c.doc, c.n, ValueV::Node(id)) is Null,
        c.doc.kind_of(id) == NodeKind::Array || c.doc.kind_of(id) == NodeKind::Object ==> scalar(
            c.doc,
            c.n,
            ValueV::Node(id),
        ) is Container,
        scalar(c.doc, c.n, ValueV::Number(x)) == ScalarV::Number(x),
        scalar(c.doc, c.n, ValueV::Str(s)) == ScalarV::Str(s),
        scalar(c.doc, c.n, ValueV::Bool(t)) == ScalarV::Bool(t),
        scalar(c.doc, c.n, ValueV::Null) is Null,
        finite(x) ==> number_of(c.doc, c.n, ValueV::Number(x)) == Some(x),
        !finite(x) ==> number_of(c.doc, c.n, ValueV::Number(x)) is None,
{
}

} // verus!
