//! What the functions of the query language are for.
use vstd::prelude::*;

use super::super::ast::AstV;
use super::super::grammar::kw;
use super::super::number::{exponent, finite, halved, mantissa, negative, whole_of, zero, NumOp};
use super::super::value::{number_of, ValueV};
use super::functions::{
    called, lowered, raised, replaced, shrunk, text_of, trim_back, trim_front, whole_part,
};
use super::joining::{firsts_are_parts, parts_at, parts_sound};
use super::model::{all_of, kids_of, one, CtxV, EnvV};
use super::scan::child_values;
use super::semantics::{firsts, run};
use crate::container_scan::{children, opening};
use crate::document::NodeKind;
use crate::interleaving::scan_meets_children;
use crate::text::whitespace;

verus! {

/// The length and the first two characters of a word.
spec fn mark(w: Seq<char>) -> int {
    w.len() * 1000000 + (w[0] as int) * 1000 + (w[1] as int)
}

/// The names of the functions are different names.
#[verifier::spinoff_prover]
proof fn names_differ()
    ensures
        mark(kw::ROUND@) == 5114111,
        mark(kw::LENGTH@) == 6108101,
        mark(kw::LOWER@) == 5108111,
        mark(kw::UPPER@) == 5117112,
        mark(kw::ABS@) == 3097098,
        mark(kw::FLOOR@) == 5102108,
        mark(kw::CEIL@) == 4099101,
        mark(kw::SQRT@) == 4115113,
        mark(kw::POW@) == 3112111,
        mark(kw::MOD@) == 3109111,
        mark(kw::TRIM@) == 4116114,
        mark(kw::SUBSTR@) == 6115117,
        mark(kw::REPLACE@) == 7114101,
{
    reveal_strlit("round");
    assert(kw::ROUND@.len() == 5 && kw::ROUND@[0] == 'r' && kw::ROUND@[1] == 'o');
    reveal_strlit("length");
    assert(kw::LENGTH@.len() == 6 && kw::LENGTH@[0] == 'l' && kw::LENGTH@[1] == 'e');
    reveal_strlit("lower");
    assert(kw::LOWER@.len() == 5 && kw::LOWER@[0] == 'l' && kw::LOWER@[1] == 'o');
    reveal_strlit("upper");
    assert(kw::UPPER@.len() == 5 && kw::UPPER@[0] == 'u' && kw::UPPER@[1] == 'p');
    reveal_strlit("abs");
    assert(kw::ABS@.len() == 3 && kw::ABS@[0] == 'a' && kw::ABS@[1] == 'b');
    reveal_strlit("floor");
    assert(kw::FLOOR@.len() == 5 && kw::FLOOR@[0] == 'f' && kw::FLOOR@[1] == 'l');
    reveal_strlit("ceil");
    assert(kw::CEIL@.len() == 4 && kw::CEIL@[0] == 'c' && kw::CEIL@[1] == 'e');
    reveal_strlit("sqrt");
    assert(kw::SQRT@.len() == 4 && kw::SQRT@[0] == 's' && kw::SQRT@[1] == 'q');
    reveal_strlit("pow");
    assert(kw::POW@.len() == 3 && kw::POW@[0] == 'p' && kw::POW@[1] == 'o');
    reveal_strlit("mod");
    assert(kw::MOD@.len() == 3 && kw::MOD@[0] == 'm' && kw::MOD@[1] == 'o');
    reveal_strlit("trim");
    assert(kw::TRIM@.len() == 4 && kw::TRIM@[0] == 't' && kw::TRIM@[1] == 'r');
    reveal_strlit("substr");
    assert(kw::SUBSTR@.len() == 6 && kw::SUBSTR@[0] == 's' && kw::SUBSTR@[1] == 'u');
    reveal_strlit("replace");
    assert(kw::REPLACE@.len() == 7 && kw::REPLACE@[0] == 'r' && kw::REPLACE@[1] == 'e');
}

/// A call gives the function's value of the first values of its arguments.
#[verifier::spinoff_prover]
pub proof fn calls_take_first_values(c: CtxV, name: Seq<char>, args: Seq<AstV>, env: EnvV, v: ValueV)
    requires
        parts_sound(c, args, env, v),
    ensures
        run(c, AstV::Call { name, args }, env, v) == one(
            env,
            called(c, name, parts_at(c, args, env, v)),
        ),
{
    firsts_are_parts(c, args, env, v);
    reveal(run);
    reveal(firsts);
}

/// The result of an operation on a number; null where it is not finite.
pub open spec fn finite_or_null(x: u64) -> ValueV {
    if finite(x) {
        ValueV::Number(x)
    } else {
        ValueV::Null
    }
}

/// The functions of numbers compute what their names say; on what is no number
/// they give null.
pub proof fn number_functions_compute(c: CtxV, a: ValueV, b: ValueV)
    ensures
        ({
            let one_arg = seq![Some(a)];
            let two = seq![Some(a), Some(b)];
            match number_of(c.doc, c.n, a) {
                Some(x) => {
                    &&& called(c, kw::ABS@, one_arg) == finite_or_null(
                        (c.n.apply)(NumOp::Abs, x, 0),
                    )
                    &&& called(c, kw::FLOOR@, one_arg) == finite_or_null(
                        (c.n.apply)(NumOp::Floor, x, 0),
                    )
                    &&& called(c, kw::CEIL@, one_arg) == finite_or_null(
                        (c.n.apply)(NumOp::Ceil, x, 0),
                    )
                    &&& called(c, kw::SQRT@, one_arg) == finite_or_null(
                        (c.n.apply)(NumOp::Sqrt, x, 0),
                    )
                    &&& called(c, kw::ROUND@, one_arg) == finite_or_null(
                        (c.n.apply)(NumOp::Round, x, (c.n.apply)(NumOp::OfInt, 0, 0)),
                    )
                    &&& match number_of(c.doc, c.n, b) {
                        Some(y) => {
                            &&& called(c, kw::POW@, two) == finite_or_null(
                                (c.n.apply)(NumOp::Pow, x, y),
                            )
                            &&& called(c, kw::MOD@, two) == finite_or_null(
                                (c.n.apply)(NumOp::Mod, x, y),
                            )
                            &&& called(c, kw::ROUND@, two) == finite_or_null(
                                (c.n.apply)(NumOp::Round, x, y),
                            )
                        },
                        None => {
                            &&& called(c, kw::POW@, two) is Null
                            &&& called(c, kw::MOD@, two) is Null
                            &&& called(c, kw::ROUND@, two) is Null
                        },
                    }
                },
                None => {
                    &&& called(c, kw::ABS@, one_arg) is Null
                    &&& called(c, kw::FLOOR@, one_arg) is Null
                    &&& called(c, kw::CEIL@, one_arg) is Null
                    &&& called(c, kw::SQRT@, one_arg) is Null
                    &&& called(c, kw::ROUND@, one_arg) is Null
                    &&& called(c, kw::POW@, two) is Null
                    &&& called(c, kw::MOD@, two) is Null
                },
            }
        }),
{
    names_differ();
}

/// `lower` and `upper` change the case of a text; what is no text has none.
pub proof fn case_functions_change_case(c: CtxV, a: ValueV)
    ensures
        match text_of(c, Some(a)) {
            Some(s) => called(c, kw::LOWER@, seq![Some(a)]) == ValueV::Str(lowered(s)) && called(
                c,
                kw::UPPER@,
                seq![Some(a)],
            ) == ValueV::Str(raised(s)),
            None => called(c, kw::LOWER@, seq![Some(a)]) is Null && called(
                c,
                kw::UPPER@,
                seq![Some(a)],
            ) is Null,
        },
        a matches ValueV::Str(s) ==> text_of(c, Some(a)) == Some(s),
{
    names_differ();
}

/// The length of a text is how many characters it has, that of a list how many
/// items, and that of a container of the document how many values iteration
/// over it gives. Null has the length zero.
#[verifier::spinoff_prover]
pub proof fn length_counts(c: CtxV, source: Seq<u8>, a: ValueV, env: EnvV)
    requires
        source.len() <= u64::MAX,
        c.doc.indexes(source),
        run(c, AstV::Iterate, env, a).rows.len() <= u32::MAX,
    ensures
        ({
            let n = called(c, kw::LENGTH@, seq![Some(a)]);
            &&& a matches ValueV::Str(s) ==> n == count_of(c, s.len())
            &&& a matches ValueV::Array(v) ==> n == count_of(c, v.len())
            &&& a matches ValueV::Object(f) ==> n == count_of(c, f.len())
            &&& a is Null ==> n == count_of(c, 0)
            &&& a is Number || a is Bool ==> n is Null
            &&& a matches ValueV::Node(id) ==> (c.doc.kind_of(id) == NodeKind::Array
                || c.doc.kind_of(id) == NodeKind::Object ==> n == count_of(
                c,
                run(c, AstV::Iterate, env, a).rows.len(),
            ))
            &&& a matches ValueV::Node(id) ==> (c.doc.kind_of(id) == NodeKind::String ==> (text_of(
                c,
                Some(a),
            ) matches Some(s) ==> n == count_of(c, s.len())))
        }),
{
    names_differ();
    if let ValueV::Node(id) = a {
        assert(run(c, AstV::Iterate, env, a) == all_of(env, kids_of(c, a))) by {
            reveal(run);
        }
        if c.doc.kind_of(id) == NodeKind::Array || c.doc.kind_of(id) == NodeKind::Object {
            assert(kids_of(c, a) == child_values(c.doc, c.n, id));
            scan_meets_children(c.doc, source, id);
            let o = opening(c.doc, id)->0;
            assert(run(c, AstV::Iterate, env, a).rows.len() == children(c.doc, o).len());
        }
    }
}

/// A count as a number.
pub open spec fn count_of(c: CtxV, n: nat) -> ValueV {
    ValueV::Number((c.n.apply)(NumOp::OfInt, n as u64, 0))
}

/// All of these characters are white space.
pub open spec fn blank(s: Seq<char>) -> bool {
    forall|i: int| 0 <= i < s.len() ==> whitespace(#[trigger] s[i])
}

/// `t` is `s` without the white space at both ends.
pub open spec fn is_trimmed(s: Seq<char>, t: Seq<char>) -> bool {
    &&& exists|a: Seq<char>, b: Seq<char>| s == #[trigger] (a + t + b) && blank(a) && blank(b)
    &&& t.len() > 0 ==> !whitespace(t[0]) && !whitespace(t.last())
}

proof fn front_trimmed(s: Seq<char>) -> (a: Seq<char>)
    ensures
        s == a + trim_front(s),
        blank(a),
        trim_front(s).len() > 0 ==> !whitespace(trim_front(s)[0]),
    decreases s.len(),
{
    if s.len() > 0 && whitespace(s[0]) {
        let rest = s.subrange(1, s.len() as int);
        let b = front_trimmed(rest);
        let a = seq![s[0]] + b;
        assert forall|i: int| 0 <= i < a.len() implies whitespace(#[trigger] a[i]) by {
            if i > 0 {
                assert(a[i] == b[i - 1]);
            }
        }
        assert(s =~= seq![s[0]] + rest);
        assert(s =~= a + trim_front(s));
        a
    } else {
        assert(s =~= Seq::<char>::empty() + s);
        Seq::empty()
    }
}

proof fn back_trimmed(s: Seq<char>) -> (b: Seq<char>)
    ensures
        s == trim_back(s) + b,
        blank(b),
        trim_back(s).len() > 0 ==> !whitespace(trim_back(s).last()) && trim_back(s)[0] == s[0],
    decreases s.len(),
{
    if s.len() > 0 && whitespace(s.last()) {
        let rest = s.drop_last();
        let a = back_trimmed(rest);
        let b = a.push(s.last());
        assert forall|i: int| 0 <= i < b.len() implies whitespace(#[trigger] b[i]) by {
            if i < a.len() {
                assert(b[i] == a[i]);
            }
        }
        assert(s =~= rest.push(s.last()));
        assert(s =~= trim_back(s) + b);
        b
    } else {
        assert(s =~= s + Seq::<char>::empty());
        Seq::empty()
    }
}

/// `trim` takes the white space off both ends of a text, and nothing else.
pub proof fn trim_takes_off_white_space(c: CtxV, s: Seq<char>)
    ensures
        called(c, kw::TRIM@, seq![Some(ValueV::Str(s))]) matches ValueV::Str(t) && is_trimmed(s, t),
{
    names_differ();
    let m = trim_front(s);
    let t = trim_back(m);
    let a = front_trimmed(s);
    let b = back_trimmed(m);
    assert(s =~= a + t + b);
}

proof fn shrunk_is_halved(m: int, k: nat)
    ensures
        halved(m, k) matches Some(s) ==> shrunk(m, k) == s,
    decreases k,
{
    if k > 0 && m % 2 == 0 {
        shrunk_is_halved(m / 2, (k - 1) as nat);
    }
}

/// The whole part of a double that is an integer is that integer, zero where
/// that is negative.
proof fn whole_part_is_whole(n: u64)
    requires
        whole_of(n) is Some,
        whole_of(n)->0 >= 0,
    ensures
        whole_part(n) == whole_of(n)->0,
{
    let e = exponent(n);
    let m = mantissa(n) + 0x10_0000_0000_0000;
    if zero(n) {
        assert(e < 1023) by {
            assert(n == 0 || n == 0x8000_0000_0000_0000);
        }
    } else if negative(n) {
        super::super::number_laws::sign_of_whole(n);
    } else if e < 1075 {
        shrunk_is_halved(m, (1075 - e) as nat);
    }
}

/// The smaller of two numbers.
pub open spec fn at_most(a: int, b: int) -> int {
    if a < b {
        a
    } else {
        b
    }
}

/// `substr` gives as many characters of a text as it is asked for, from the
/// place on that it is given, as far as there are.
pub proof fn substr_takes_a_part(c: CtxV, s: Seq<char>, x: u64, y: u64)
    requires
        finite(x),
        finite(y),
        whole_of(x) is Some,
        whole_of(y) is Some,
        whole_of(x)->0 >= 0,
        whole_of(y)->0 >= 0,
    ensures
        ({
            let from = at_most(whole_of(x)->0, s.len() as int);
            let to = at_most(whole_of(x)->0 + whole_of(y)->0, s.len() as int);
            called(
                c,
                kw::SUBSTR@,
                seq![Some(ValueV::Str(s)), Some(ValueV::Number(x)), Some(ValueV::Number(y))],
            ) == ValueV::Str(s.subrange(from, to))
        }),
{
    names_differ();
    whole_part_is_whole(x);
    whole_part_is_whole(y);
    let args = seq![Some(ValueV::Str(s)), Some(ValueV::Number(x)), Some(ValueV::Number(y))];
    assert(args[0] == Some(ValueV::Str(s)));
    assert(args[1] == Some(ValueV::Number(x)));
    assert(args[2] == Some(ValueV::Number(y)));
}

/// `from` stands in `s` at `i`.
pub open spec fn stands_at(s: Seq<char>, from: Seq<char>, i: int) -> bool {
    0 <= i && i + from.len() <= s.len() && s.subrange(i, i + from.len()) == from
}

proof fn replaced_before(s: Seq<char>, from: Seq<char>, to: Seq<char>, i: int, k: int)
    requires
        from.len() > 0,
        0 <= i <= k <= s.len(),
        forall|j: int| i <= j < k ==> !#[trigger] stands_at(s, from, j),
    ensures
        replaced(s, from, to, i) == s.subrange(i, k) + replaced(s, from, to, k),
    decreases k - i,
{
    if i < k {
        assert(!stands_at(s, from, i));
        replaced_before(s, from, to, i + 1, k);
        assert(seq![s[i]] + s.subrange(i + 1, k) =~= s.subrange(i, k));
        assert(seq![s[i]] + (s.subrange(i + 1, k) + replaced(s, from, to, k)) =~= s.subrange(i, k)
            + replaced(s, from, to, k));
    } else {
        assert(s.subrange(i, k) + replaced(s, from, to, k) =~= replaced(s, from, to, k));
    }
}

proof fn replaced_moves(s: Seq<char>, from: Seq<char>, to: Seq<char>, i: int, t: Seq<char>, k: int)
    requires
        from.len() > 0,
        0 <= i <= s.len(),
        0 <= k <= t.len(),
        s.skip(i) == t.skip(k),
    ensures
        replaced(s, from, to, i) == replaced(t, from, to, k),
    decreases s.len() - i,
{
    assert(s.skip(i).len() == s.len() - i);
    assert(t.skip(k).len() == t.len() - k);
    if i < s.len() {
        let n = from.len() as int;
        assert(s.skip(i)[0] == s[i]);
        assert(t.skip(k)[0] == t[k]);
        if i + n <= s.len() {
            assert(s.subrange(i, i + n) =~= s.skip(i).subrange(0, n));
            assert(t.subrange(k, k + n) =~= t.skip(k).subrange(0, n));
            assert(s.skip(i + n) =~= s.skip(i).skip(n));
            assert(t.skip(k + n) =~= t.skip(k).skip(n));
            replaced_moves(s, from, to, i + n, t, k + n);
        }
        assert(s.skip(i + 1) =~= s.skip(i).skip(1));
        assert(t.skip(k + 1) =~= t.skip(k).skip(1));
        replaced_moves(s, from, to, i + 1, t, k + 1);
    }
}

/// The call of `replace` on texts.
pub open spec fn replace_call(c: CtxV, s: Seq<char>, from: Seq<char>, to: Seq<char>) -> ValueV {
    called(
        c,
        kw::REPLACE@,
        seq![Some(ValueV::Str(s)), Some(ValueV::Str(from)), Some(ValueV::Str(to))],
    )
}

/// `replace` leaves a text as it is where it does not hold the other one.
/// Where it does, the first such place gets the new text, and the rest behind
/// it is replaced in turn.
pub proof fn replace_puts_the_new_text(
    c: CtxV,
    s: Seq<char>,
    from: Seq<char>,
    to: Seq<char>,
    k: int,
)
    requires
        from.len() > 0,
    ensures
        (forall|j: int| !#[trigger] stands_at(s, from, j)) ==> replace_call(c, s, from, to)
            == ValueV::Str(s),
        stands_at(s, from, k) && (forall|j: int| 0 <= j < k ==> !#[trigger] stands_at(s, from, j))
            ==> {
            let rest = s.subrange(k + from.len(), s.len() as int);
            replace_call(c, rest, from, to) matches ValueV::Str(r) && replace_call(c, s, from, to)
                == ValueV::Str(s.subrange(0, k) + to + r)
        },
{
    names_differ();
    let args = seq![Some(ValueV::Str(s)), Some(ValueV::Str(from)), Some(ValueV::Str(to))];
    assert(args[0] == Some(ValueV::Str(s)));
    assert(args[1] == Some(ValueV::Str(from)));
    assert(args[2] == Some(ValueV::Str(to)));
    assert(replace_call(c, s, from, to) == ValueV::Str(replaced(s, from, to, 0)));
    if forall|j: int| !#[trigger] stands_at(s, from, j) {
        replaced_before(s, from, to, 0, s.len() as int);
        assert(replaced(s, from, to, s.len() as int) == Seq::<char>::empty());
        assert(s.subrange(0, s.len() as int) + Seq::<char>::empty() =~= s);
    }
    if stands_at(s, from, k) && (forall|j: int| 0 <= j < k ==> !#[trigger] stands_at(s, from, j)) {
        let n = from.len() as int;
        let rest = s.subrange(k + n, s.len() as int);
        let more = seq![Some(ValueV::Str(rest)), Some(ValueV::Str(from)), Some(ValueV::Str(to))];
        assert(more[0] == Some(ValueV::Str(rest)));
        assert(more[1] == Some(ValueV::Str(from)));
        assert(more[2] == Some(ValueV::Str(to)));
        assert(replace_call(c, rest, from, to) == ValueV::Str(replaced(rest, from, to, 0)));
        replaced_before(s, from, to, 0, k);
        assert(rest.skip(0) =~= s.skip(k + n));
        replaced_moves(s, from, to, k + n, rest, 0);
        assert(s.subrange(0, k) + (to + replaced(rest, from, to, 0)) =~= s.subrange(0, k) + to
            + replaced(rest, from, to, 0));
    }
}

} // verus!
