//! The lexer reads the text of an expression as its tokens.
use vstd::prelude::*;

use super::super::ast::CompareOp;
use super::super::canonical::{is_bare, name_text};
use super::super::grammar::kw;
use super::super::lexer::{ends_value, word_char, Tok};
use super::ast::{ExprV, JsonTypeKind, LitV, ObjectFieldV};
use super::format::{
    atom, beside_word, comma, compared, expr_text, exprs_text, field_text, is_atom, is_word,
    joins_words, level, lit_text, object_text, op_level, operand, path_text, reducer_name,
    starts_signed, suffix,
};
use super::layout_parse::{operand_pieces, wrapped};
use super::layout_reads::{
    binary_texts, blank, compare_texts, cut, double_texts, gives, gives_blank, gives_join,
    gives_mark, gives_name, gives_number, gives_path, gives_spaced_mark, gives_spaced_word,
    gives_word, joining_idents, joining_texts, starting_idents, value_after,
};
use super::layout_tokens::{
    binary_tok, compare_tok, default_toks, field_toks, fields_toks, list_toks, lit_tok, name_tok,
    regular, regular_all, regular_entry, regular_fields, regular_number, toks,
};
use super::readback::{has, has_parts, ident_text, read_one, read_string, word_stops};
use crate::text::whitespace;

verus! {

/// An expression in parentheses or without them.
pub open spec fn wrapped_text(e: ExprV, paren: bool) -> Seq<char> {
    if paren {
        "("@ + expr_text(e) + ")"@
    } else {
        expr_text(e)
    }
}

pub proof fn operand_texts(e: ExprV, min: int, op: CompareOp)
    ensures
        operand(e, min) == wrapped_text(e, level(e) < min),
        beside_word(e, min) == wrapped_text(e, level(e) < min || joins_words(e)),
        atom(e) == wrapped_text(e, !is_atom(e)),
        compared(e, op) == wrapped_text(e, level(e) < 4 || (is_word(op) && joins_words(e))),
{
    assert(beside_word(e, 4) == wrapped_text(e, level(e) < 4 || joins_words(e)));
    assert(operand(e, 4) == wrapped_text(e, level(e) < 4));
}

/// Three parts one after the other.
pub proof fn gives_three(
    s: Seq<char>,
    i: int,
    av: bool,
    a: Seq<Tok>,
    j: int,
    b: Seq<Tok>,
    k: int,
    c: Seq<Tok>,
    l: int,
)
    requires
        gives(s, i, av, a, j),
        gives(s, j, value_after(a, av), b, k),
        gives(s, k, value_after(b, value_after(a, av)), c, l),
        b.len() > 0,
    ensures
        gives(s, i, av, a + b + c, l),
{
    gives_join(s, i, av, a, j, b, k);
    assert((a + b).last() == b.last());
    gives_join(s, i, av, a + b, k, c, l);
}

/// A word and an opening parenthesis.
pub proof fn gives_head(s: Seq<char>, i: int, n: Seq<char>, av: bool)
    requires
        has(s, i, n + seq!['(']),
        ident_text(n),
    ensures
        gives(s, i, av, seq![Tok::Ident(n), Tok::LParen], i + n.len() + 1),
{
    has_parts(s, i, n, seq!['(']);
    let k = i + n.len();
    assert(s[k + 0] == seq!['('][0]);
    gives_word(s, i, n, av);
    gives_mark(s, k, '(', true);
    gives_join(s, i, av, seq![Tok::Ident(n)], k, seq![Tok::LParen], k + 1);
    assert(seq![Tok::Ident(n)] + seq![Tok::LParen] =~= seq![Tok::Ident(n), Tok::LParen]);
}

/// A comma and a space.
pub proof fn gives_comma(s: Seq<char>, i: int, av: bool)
    requires
        has(s, i, ", "@),
    ensures
        gives(s, i, av, seq![Tok::Comma], i + 2),
{
    double_texts();
    assert(", "@ =~= seq![','] + seq![' ']);
    has_parts(s, i, seq![','], seq![' ']);
    gives_mark(s, i, ',', av);
    gives_blank(s, i + 1, seq![' '], false);
    gives_join(s, i, av, seq![Tok::Comma], i + 1, Seq::empty(), i + 2);
    assert(seq![Tok::Comma] + Seq::<Tok>::empty() =~= seq![Tok::Comma]);
}

/// An operand reads back.
#[verifier::spinoff_prover]
pub proof fn gives_operand(s: Seq<char>, i: int, e: ExprV, paren: bool, av: bool)
    requires
        regular(e),
        has(s, i, wrapped_text(e, paren)),
        cut(s, i + wrapped_text(e, paren).len()),
        !paren && starts_signed(e) ==> !av,
    ensures
        gives(s, i, av, wrapped(e, paren), i + wrapped_text(e, paren).len()),
    decreases e, 5int,
{
    if paren {
        double_texts();
        let x = expr_text(e);
        has_parts(s, i, "("@ + x, ")"@);
        has_parts(s, i, "("@, x);
        gives_mark(s, i, '(', av);
        let k = i + 1 + x.len();
        assert(s[k + 0] == ")"@[0]);
        gives_expr(s, i + 1, e, false);
        gives_mark(s, k, ')', value_after(toks(e), false));
        super::layout_parse::first_tok(e);
        gives_three(s, i, av, seq![Tok::LParen], i + 1, toks(e), k, seq![Tok::RParen], k + 1);
    } else {
        gives_expr(s, i, e, av);
    }
}

/// What stands between two operands.
pub open spec fn middle(e: ExprV) -> Seq<char> {
    match e {
        ExprV::Compare(_, op, _) => seq![' '] + op.symbol() + seq![' '],
        ExprV::In(..) => " in "@,
        ExprV::NotIn(..) => " not in "@,
        ExprV::And(..) => " and "@,
        ExprV::Or(..) => " or "@,
        ExprV::Binary { op, .. } => seq![' '] + op.symbol() + seq![' '],
        _ => Seq::empty(),
    }
}

pub open spec fn middle_toks(e: ExprV) -> Seq<Tok> {
    match e {
        ExprV::Compare(_, op, _) => seq![compare_tok(op)],
        ExprV::In(..) => seq![Tok::Ident(kw::IN@)],
        ExprV::NotIn(..) => seq![Tok::Ident(kw::NOT@), Tok::Ident(kw::IN@)],
        ExprV::And(..) => seq![Tok::Ident(kw::AND@)],
        ExprV::Or(..) => seq![Tok::Ident(kw::OR@)],
        ExprV::Binary { op, .. } => seq![binary_tok(op)],
        _ => Seq::empty(),
    }
}

/// An expression with two operands.
pub open spec fn has_two(e: ExprV) -> bool {
    e is Compare || e is In || e is NotIn || e is And || e is Or || e is Binary
}

/// Its operands, and whether they stand in parentheses.
pub open spec fn sides(e: ExprV) -> (ExprV, bool, ExprV, bool) {
    match e {
        ExprV::Compare(l, op, r) => (
            *l,
            level(*l) < 4 || (is_word(op) && joins_words(*l)),
            *r,
            level(*r) < 4 || (is_word(op) && joins_words(*r)),
        ),
        ExprV::In(l, r) => (
            *l,
            level(*l) < 4 || joins_words(*l),
            *r,
            level(*r) < 4 || joins_words(*r),
        ),
        ExprV::NotIn(l, r) => (
            *l,
            level(*l) < 4 || joins_words(*l),
            *r,
            level(*r) < 4 || joins_words(*r),
        ),
        ExprV::And(l, r) => (
            *l,
            level(*l) < 1 || joins_words(*l),
            *r,
            level(*r) < 2 || joins_words(*r),
        ),
        ExprV::Or(l, r) => (
            *l,
            level(*l) < 0 || joins_words(*l),
            *r,
            level(*r) < 1 || joins_words(*r),
        ),
        ExprV::Binary { op, lhs, rhs } => (
            *lhs,
            level(*lhs) < op_level(op),
            *rhs,
            level(*rhs) < op_level(op) + 1,
        ),
        _ => (e, false, e, false),
    }
}

/// The parts of an expression with two operands.
#[verifier::spinoff_prover]
proof fn two_parts(e: ExprV)
    requires
        has_two(e),
        regular(e),
    ensures
        regular(sides(e).0),
        regular(sides(e).2),
        expr_text(e) == wrapped_text(sides(e).0, sides(e).1) + middle(e) + wrapped_text(
            sides(e).2,
            sides(e).3,
        ),
        toks(e) == wrapped(sides(e).0, sides(e).1) + middle_toks(e) + wrapped(
            sides(e).2,
            sides(e).3,
        ),
        middle(e).len() > 0,
        middle(e)[0] == ' ',
        middle_toks(e).len() > 0,
        !sides(e).1 && starts_signed(sides(e).0) ==> starts_signed(e),
        !sides(e).3 && starts_signed(sides(e).2) ==> !ends_value(middle_toks(e).last()),
{
    let (l, p, r, q) = sides(e);
    double_texts();
    joining_texts();
    match e {
        ExprV::Compare(_, op, _) => {
            operand_texts(l, 4, op);
            operand_texts(r, 4, op);
            operand_pieces(l, 4, op);
            operand_pieces(r, 4, op);
            let a = wrapped_text(l, p);
            let b = wrapped_text(r, q);
            assert(a + " "@ + op.symbol() + " "@ + b =~= a + middle(e) + b);
            assert(!is_word(op) ==> !ends_value(compare_tok(op)));
            assert(middle_toks(e).last() == compare_tok(op));
        },
        ExprV::Binary { op, .. } => {
            operand_texts(l, op_level(op), CompareOp::Eq);
            operand_texts(r, op_level(op) + 1, CompareOp::Eq);
            operand_pieces(l, op_level(op), CompareOp::Eq);
            operand_pieces(r, op_level(op) + 1, CompareOp::Eq);
            let a = wrapped_text(l, p);
            let b = wrapped_text(r, q);
            assert(a + " "@ + op.symbol() + " "@ + b =~= a + middle(e) + b);
        },
        ExprV::And(..) => {
            operand_texts(l, 1, CompareOp::Eq);
            operand_texts(r, 2, CompareOp::Eq);
            operand_pieces(l, 1, CompareOp::Eq);
            operand_pieces(r, 2, CompareOp::Eq);
        },
        ExprV::Or(..) => {
            operand_texts(l, 0, CompareOp::Eq);
            operand_texts(r, 1, CompareOp::Eq);
            operand_pieces(l, 0, CompareOp::Eq);
            operand_pieces(r, 1, CompareOp::Eq);
        },
        _ => {
            operand_texts(l, 4, CompareOp::Eq);
            operand_texts(r, 4, CompareOp::Eq);
            operand_pieces(l, 4, CompareOp::Eq);
            operand_pieces(r, 4, CompareOp::Eq);
        },
    }
}

/// What stands between two operands reads back.
#[verifier::spinoff_prover]
pub proof fn gives_middle(s: Seq<char>, i: int, e: ExprV, av: bool)
    requires
        has_two(e),
        has(s, i, middle(e)),
    ensures
        gives(s, i, av, middle_toks(e), i + middle(e).len()),
{
    double_texts();
    joining_texts();
    joining_idents();
    let sp = seq![' '];
    assert(blank(sp));
    match e {
        ExprV::Compare(_, op, _) => {
            compare_texts(op);
            if is_word(op) {
                gives_spaced_word(s, i, sp, op.symbol(), sp, av);
            } else {
                gives_spaced_mark(s, i, op.symbol(), compare_tok(op), av);
            }
        },
        ExprV::Binary { op, .. } => {
            binary_texts(op);
            gives_spaced_mark(s, i, op.symbol(), binary_tok(op), av);
        },
        ExprV::In(..) => {
            gives_spaced_word(s, i, sp, kw::IN@, sp, av);
        },
        ExprV::And(..) => {
            gives_spaced_word(s, i, sp, kw::AND@, sp, av);
        },
        ExprV::Or(..) => {
            gives_spaced_word(s, i, sp, kw::OR@, sp, av);
        },
        ExprV::NotIn(..) => {
            gives_two_words(s, i, kw::NOT@, kw::IN@, av);
        },
        _ => {},
    }
}

/// Two words.
pub proof fn gives_two_words(s: Seq<char>, i: int, a: Seq<char>, b: Seq<char>, av: bool)
    requires
        has(s, i, seq![' '] + a + seq![' '] + (b + seq![' '])),
        ident_text(a),
        ident_text(b),
    ensures
        gives(s, i, av, seq![Tok::Ident(a), Tok::Ident(b)], i + a.len() + b.len() + 3),
{
    let sp = seq![' '];
    assert(blank(sp));
    has_parts(s, i, sp + a + sp, b + sp);
    gives_spaced_word(s, i, sp, a, sp, av);
    let none = Seq::<char>::empty();
    let k = i + a.len() + 2;
    assert(none + b + sp =~= b + sp);
    gives_spaced_word(s, k, none, b, sp, true);
    gives_join(s, i, av, seq![Tok::Ident(a)], k, seq![Tok::Ident(b)], k + b.len() + 1);
    assert(seq![Tok::Ident(a)] + seq![Tok::Ident(b)] =~= seq![Tok::Ident(a), Tok::Ident(b)]);
}

proof fn type_idents(ty: JsonTypeKind)
    ensures
        ident_text(ty.name()),
{
    reveal_strlit("string");
    reveal_strlit("number");
    reveal_strlit("bool");
    reveal_strlit("null");
    reveal_strlit("array");
    reveal_strlit("object");
    let x = ty.name();
    match ty {
        JsonTypeKind::String => {
            assert(x.len() == 6);
            assert(x[0] == 's');
            assert(x[1] == 't');
            assert(x[2] == 'r');
            assert(x[3] == 'i');
            assert(x[4] == 'n');
            assert(x[5] == 'g');
            assert forall|k: int| 1 <= k < x.len() implies word_char(#[trigger] x[k]) by {
                assert(k == 1 || k == 2 || k == 3 || k == 4 || k == 5);
            }
        },
        JsonTypeKind::Number => {
            assert(x.len() == 6);
            assert(x[0] == 'n');
            assert(x[1] == 'u');
            assert(x[2] == 'm');
            assert(x[3] == 'b');
            assert(x[4] == 'e');
            assert(x[5] == 'r');
            assert forall|k: int| 1 <= k < x.len() implies word_char(#[trigger] x[k]) by {
                assert(k == 1 || k == 2 || k == 3 || k == 4 || k == 5);
            }
        },
        JsonTypeKind::Bool => {
            assert(x.len() == 4);
            assert(x[0] == 'b');
            assert(x[1] == 'o');
            assert(x[2] == 'o');
            assert(x[3] == 'l');
            assert forall|k: int| 1 <= k < x.len() implies word_char(#[trigger] x[k]) by {
                assert(k == 1 || k == 2 || k == 3);
            }
        },
        JsonTypeKind::Null => {
            assert(x.len() == 4);
            assert(x[0] == 'n');
            assert(x[1] == 'u');
            assert(x[2] == 'l');
            assert(x[3] == 'l');
            assert forall|k: int| 1 <= k < x.len() implies word_char(#[trigger] x[k]) by {
                assert(k == 1 || k == 2 || k == 3);
            }
        },
        JsonTypeKind::Array => {
            assert(x.len() == 5);
            assert(x[0] == 'a');
            assert(x[1] == 'r');
            assert(x[2] == 'r');
            assert(x[3] == 'a');
            assert(x[4] == 'y');
            assert forall|k: int| 1 <= k < x.len() implies word_char(#[trigger] x[k]) by {
                assert(k == 1 || k == 2 || k == 3 || k == 4);
            }
        },
        JsonTypeKind::Object => {
            assert(x.len() == 6);
            assert(x[0] == 'o');
            assert(x[1] == 'b');
            assert(x[2] == 'j');
            assert(x[3] == 'e');
            assert(x[4] == 'c');
            assert(x[5] == 't');
            assert forall|k: int| 1 <= k < x.len() implies word_char(#[trigger] x[k]) by {
                assert(k == 1 || k == 2 || k == 3 || k == 4 || k == 5);
            }
        },
    }
}

/// An expression reads back.
#[verifier::spinoff_prover]
#[verifier::rlimit(60)]
pub proof fn gives_expr(s: Seq<char>, i: int, e: ExprV, av: bool)
    requires
        regular(e),
        has(s, i, expr_text(e)),
        cut(s, i + expr_text(e).len()),
        starts_signed(e) ==> !av,
    ensures
        gives(s, i, av, toks(e), i + expr_text(e).len()),
    decreases e, 3int,
{
    if has_two(e) {
        let (l, p, r, q) = sides(e);
        two_parts(e);
        let a = wrapped_text(l, p);
        let m = middle(e);
        let b = wrapped_text(r, q);
        has_parts(s, i, a + m, b);
        has_parts(s, i, a, m);
        let j = i + a.len();
        let k = j + m.len();
        assert(s[j + 0] == m[0]);
        assert(decreases_to!(e => l));
        assert(decreases_to!(e => r));
        gives_operand(s, i, l, p, av);
        gives_middle(s, j, e, value_after(wrapped(l, p), av));
        gives_operand(s, k, r, q, ends_value(middle_toks(e).last()));
        gives_three(s, i, av, wrapped(l, p), j, middle_toks(e), k, wrapped(r, q), k + b.len());
    } else {
        match e {
            ExprV::Path(p) => {
                gives_path(s, i, p, av);
            },
            ExprV::Lit(l) => {
                gives_lit(s, i, l, av);
            },
            ExprV::Param(n) => {
                gives_param(s, i, n, av);
            },
            ExprV::Not(..) => {
                gives_one(s, i, e, av);
            },
            ExprV::Neg(..) => {
                gives_one(s, i, e, av);
            },
            ExprV::Exists(..) => {
                gives_one(s, i, e, av);
            },
            ExprV::TypeTest { .. } => {
                gives_one(s, i, e, av);
            },
            ExprV::Object(v) => {
                assert(decreases_to!(e => v));
                gives_object(s, i, v, av);
            },
            _ => {
                gives_call(s, i, e, av);
            },
        }
    }
}

pub proof fn gives_lit(s: Seq<char>, i: int, l: LitV, av: bool)
    requires
        l matches LitV::Number(n) ==> regular_number(n) && (n[0] == '-' ==> !av),
        has(s, i, lit_text(l)),
        cut(s, i + lit_text(l).len()),
    ensures
        gives(s, i, av, seq![lit_tok(l)], i + lit_text(l).len()),
{
    starting_idents();
    match l {
        LitV::Number(n) => {
            gives_number(s, i, n, av);
        },
        LitV::Str(x) => {
            read_string(s, i, x, av);
        },
        LitV::Bool(b) => {
            gives_word(s, i, lit_text(l), av);
        },
        LitV::Null => {
            gives_word(s, i, lit_text(l), av);
        },
    }
}

pub proof fn gives_param(s: Seq<char>, i: int, n: Seq<char>, av: bool)
    requires
        ident_text(n),
        has(s, i, "$"@ + n),
        cut(s, i + ("$"@ + n).len()),
    ensures
        gives(s, i, av, seq![Tok::Param(n)], i + ("$"@ + n).len()),
{
    double_texts();
    has_parts(s, i, "$"@, n);
    assert(s[i + 0] == "$"@[0]);
    let e = i + 1 + n.len();
    assert(s[i + 1 + 0] == n[0]);
    assert forall|k: int| i + 2 <= k < e implies word_char(#[trigger] s[k]) by {
        assert(s[i + 1 + (k - i - 1)] == n[k - i - 1]);
    }
    word_stops(s, i + 2, e);
    assert(s.subrange(i + 1, e) =~= n) by {
        assert forall|k: int| 0 <= k < n.len() implies s.subrange(i + 1, e)[k] == n[k] by {
            assert(s[i + 1 + k] == n[k]);
        }
    }
    read_one(s, i, av, Tok::Param(n), e);
}

/// An expression with one operand reads back.
#[verifier::spinoff_prover]
#[verifier::rlimit(60)]
pub proof fn gives_one(s: Seq<char>, i: int, e: ExprV, av: bool)
    requires
        regular(e),
        e is Not || e is Neg || e is Exists || e is TypeTest,
        has(s, i, expr_text(e)),
        cut(s, i + expr_text(e).len()),
    ensures
        gives(s, i, av, toks(e), i + expr_text(e).len()),
    decreases e, 2int,
{
    double_texts();
    joining_texts();
    joining_idents();
    let sp = seq![' '];
    let none = Seq::<char>::empty();
    assert(blank(sp));
    assert(blank(none));
    match e {
        ExprV::Not(x) => {
            operand_texts(*x, 2, CompareOp::Eq);
            operand_pieces(*x, 2, CompareOp::Eq);
            let p = level(*x) < 2 || joins_words(*x);
            let b = wrapped_text(*x, p);
            assert(expr_text(e) == "not "@ + b);
            has_parts(s, i, "not "@, b);
            gives_spaced_word(s, i, none, kw::NOT@, sp, av);
            let k = i + "not "@.len();
            gives_operand(s, k, *x, p, true);
            gives_join(s, i, av, seq![Tok::Ident(kw::NOT@)], k, wrapped(*x, p), k + b.len());
        },
        ExprV::Neg(x) => {
            operand_texts(*x, 2, CompareOp::Eq);
            operand_pieces(*x, 2, CompareOp::Eq);
            let p = !is_atom(*x);
            let b = wrapped_text(*x, p);
            assert(expr_text(e) == "-"@ + b);
            has_parts(s, i, "-"@, b);
            assert(s[i + 0] == "-"@[0]);
            no_digit_first(*x, p);
            assert(s[i + 1 + 0] == b[0]);
            read_one(s, i, av, Tok::Minus, i + 1);
            gives_operand(s, i + 1, *x, p, false);
            gives_join(s, i, av, seq![Tok::Minus], i + 1, wrapped(*x, p), i + 1 + b.len());
        },
        ExprV::Exists(x) => {
            operand_texts(*x, 4, CompareOp::Eq);
            operand_pieces(*x, 4, CompareOp::Eq);
            let p = level(*x) < 4 || joins_words(*x);
            let a = wrapped_text(*x, p);
            has_parts(s, i, a, " exists"@);
            let k = i + a.len();
            assert(s[k + 0] == " exists"@[0]);
            gives_operand(s, i, *x, p, av);
            let last = value_after(wrapped(*x, p), av);
            gives_spaced_word(s, k, sp, kw::EXISTS@, none, last);
            gives_join(
                s,
                i,
                av,
                wrapped(*x, p),
                k,
                seq![Tok::Ident(kw::EXISTS@)],
                k + " exists"@.len(),
            );
        },
        ExprV::TypeTest { value, kind, negated } => {
            operand_texts(*value, 4, CompareOp::Eq);
            operand_pieces(*value, 4, CompareOp::Eq);
            type_idents(kind);
            let p = level(*value) < 4 || joins_words(*value);
            let a = wrapped_text(*value, p);
            let n = kind.name();
            let m = if negated {
                " is not "@
            } else {
                " is "@
            };
            let mk = if negated {
                seq![Tok::Ident(kw::IS@), Tok::Ident(kw::NOT@)]
            } else {
                seq![Tok::Ident(kw::IS@)]
            };
            has_parts(s, i, a + m, n);
            has_parts(s, i, a, m);
            let k = i + a.len();
            assert(s[k + 0] == m[0]);
            gives_operand(s, i, *value, p, av);
            let last = value_after(wrapped(*value, p), av);
            if negated {
                gives_two_words(s, k, kw::IS@, kw::NOT@, last);
            } else {
                gives_spaced_word(s, k, sp, kw::IS@, sp, last);
            }
            gives_word(s, k + m.len(), n, true);
            gives_three(
                s,
                i,
                av,
                wrapped(*value, p),
                k,
                mk,
                k + m.len(),
                seq![Tok::Ident(n)],
                k + m.len() + n.len(),
            );
            assert(toks(e) =~= wrapped(*value, p) + mk + seq![Tok::Ident(n)]);
        },
        _ => {},
    }
}

/// No digit follows a minus sign.
#[verifier::spinoff_prover]
proof fn no_digit_first(e: ExprV, paren: bool)
    requires
        regular(e),
        paren == !is_atom(e),
    ensures
        wrapped_text(e, paren).len() > 0,
        !crate::text::ascii_digit(wrapped_text(e, paren)[0]),
        !is_atom(e) || !starts_signed(e),
{
    double_texts();
    starting_idents();
    if !paren {
        match e {
            ExprV::Path(p) => {
                root_first(p.root, p.segments);
                assert(expr_text(e) == path_text(p));
            },
            ExprV::Lit(LitV::Bool(b)) => {
                assert(ident_text(lit_text(LitV::Bool(b))));
                assert(expr_text(e) == lit_text(LitV::Bool(b)));
            },
            ExprV::Lit(LitV::Null) => {
                assert(ident_text(lit_text(LitV::Null)));
                assert(expr_text(e) == lit_text(LitV::Null));
            },
            ExprV::Lit(LitV::Str(x)) => {
                reveal_strlit("\"");
                assert(expr_text(e)[0] == '"');
            },
            ExprV::Reducer { op, arg } => {
                let n = reducer_name(op);
                assert(ident_text(n));
                assert(expr_text(e)[0] == n[0]);
            },
            _ => {},
        }
    }
}

proof fn root_first(root: super::ast::PathRootV, v: Seq<super::ast::PathSegV>)
    requires
        root matches super::ast::PathRootV::Name(n) ==> ident_text(n),
    ensures
        super::format::segs_text(root, v).len() > 0,
        super::format::segs_text(root, v)[0] == super::format::root_text(root)[0],
        !crate::text::ascii_digit(super::format::root_text(root)[0]),
    decreases v.len(),
{
    double_texts();
    if v.len() > 0 {
        root_first(root, v.drop_last());
    }
}

/// A list reads back.
#[verifier::spinoff_prover]
pub proof fn gives_list(s: Seq<char>, i: int, v: Seq<ExprV>, av: bool)
    requires
        regular_all(v),
        has(s, i, exprs_text(v)),
        cut(s, i + exprs_text(v).len()),
        v.len() > 0 && starts_signed(v[0]) ==> !av,
    ensures
        gives(s, i, av, list_toks(v), i + exprs_text(v).len()),
    decreases v, 0int,
{
    if v.len() == 0 {
        gives_blank(s, i, Seq::empty(), av);
    } else {
        let less = v.drop_last();
        let a = exprs_text(less);
        let c = comma(v.len() == 1);
        let x = expr_text(v.last());
        double_texts();
        has_parts(s, i, a + c, x);
        has_parts(s, i, a, c);
        let j = i + a.len();
        let k = j + c.len();
        let sep: Seq<Tok> = if v.len() == 1 {
            Seq::empty()
        } else {
            seq![Tok::Comma]
        };
        if v.len() > 1 {
            assert(s[j + 0] == c[0]);
            gives_list(s, i, less, av);
            gives_comma(s, j, value_after(list_toks(less), av));
            gives_join(s, i, av, list_toks(less), j, sep, k);
        } else {
            assert(less =~= Seq::empty());
            gives_blank(s, i, Seq::empty(), av);
            assert(list_toks(less) + sep =~= Seq::empty());
        }
        assert(decreases_to!(v => v.last()));
        if v.len() > 1 {
            assert((list_toks(less) + sep).last() == Tok::Comma);
            gives_expr(s, k, v.last(), false);
        } else {
            gives_expr(s, k, v.last(), av);
        }
        gives_join(s, i, av, list_toks(less) + sep, k, toks(v.last()), k + x.len());
    }
}

/// The fields of an object read back.
#[verifier::spinoff_prover]
proof fn gives_fields(s: Seq<char>, i: int, v: Seq<ObjectFieldV>)
    requires
        regular_fields(v),
        has(s, i, object_text(v)),
        cut(s, i + object_text(v).len()),
    ensures
        gives(s, i, false, fields_toks(v), i + object_text(v).len()),
    decreases v, 0int,
{
    if v.len() == 0 {
        gives_blank(s, i, Seq::empty(), false);
    } else {
        let less = v.drop_last();
        let a = object_text(less);
        let c = comma(v.len() == 1);
        let x = field_text(v.last());
        double_texts();
        has_parts(s, i, a + c, x);
        has_parts(s, i, a, c);
        let j = i + a.len();
        let k = j + c.len();
        let sep: Seq<Tok> = if v.len() == 1 {
            Seq::empty()
        } else {
            seq![Tok::Comma]
        };
        if v.len() > 1 {
            assert(s[j + 0] == c[0]);
            gives_fields(s, i, less);
            gives_comma(s, j, value_after(fields_toks(less), false));
            gives_join(s, i, false, fields_toks(less), j, sep, k);
            assert((fields_toks(less) + sep).last() == Tok::Comma);
        } else {
            assert(less =~= Seq::empty());
            gives_blank(s, i, Seq::empty(), false);
            assert(fields_toks(less) + sep =~= Seq::empty());
        }
        assert(decreases_to!(v => v.last()));
        gives_field(s, k, v.last());
        gives_join(s, i, false, fields_toks(less) + sep, k, field_toks(v.last()), k + x.len());
    }
}

/// A field of an object reads back.
#[verifier::spinoff_prover]
proof fn gives_field(s: Seq<char>, i: int, f: ObjectFieldV)
    requires
        regular_entry(f),
        has(s, i, field_text(f)),
        cut(s, i + field_text(f).len()),
    ensures
        gives(s, i, false, field_toks(f), i + field_text(f).len()),
    decreases f, 0int,
{
    let n = name_text(f.name);
    let x = expr_text(f.value);
    let d = suffix(" ?? "@, f.default);
    let h = seq![name_tok(f.name), Tok::Colon];
    reveal_strlit(": ");
    reveal_strlit(" ?? ");
    assert(": "@.len() == 2);
    has_parts(s, i, n + ": "@ + x, d);
    has_parts(s, i, n + ": "@, x);
    let j = i + n.len() + 2;
    let k = j + x.len();
    gives_key(s, i, f.name);
    assert(decreases_to!(f => f.value));
    match f.default {
        Some(e) => {
            assert(decreases_to!(f => f.default));
            assert(decreases_to!(f.default => e));
            let y = expr_text(e);
            has_parts(s, k, " ?? "@, y);
            assert(s[k + 0] == " ?? "@[0]);
            assert(" ?? "@ =~= seq![' '] + seq!['?', '?'] + seq![' ']);
            gives_expr(s, j, f.value, false);
            gives_join(s, i, false, h, j, toks(f.value), k);
            gives_spaced_mark(
                s,
                k,
                seq!['?', '?'],
                Tok::QuestionQuestion,
                value_after(h + toks(f.value), false),
            );
            gives_expr(s, k + 4, e, false);
            let q = seq![Tok::QuestionQuestion];
            gives_join(
                s,
                k,
                value_after(h + toks(f.value), false),
                q,
                k + 4,
                toks(e),
                k + 4 + y.len(),
            );
            gives_join(s, i, false, h + toks(f.value), k, q + toks(e), k + 4 + y.len());
        },
        None => {
            gives_expr(s, j, f.value, false);
            gives_join(s, i, false, h, j, toks(f.value), k);
            assert(h + toks(f.value) + default_toks(f.default) =~= h + toks(f.value));
        },
    }
}

/// A name, a colon and a space.
#[verifier::spinoff_prover]
proof fn gives_key(s: Seq<char>, i: int, n: Seq<char>)
    requires
        is_bare(n) ==> !whitespace(n[0]),
        has(s, i, name_text(n) + ": "@),
    ensures
        gives(s, i, false, seq![name_tok(n), Tok::Colon], i + name_text(n).len() + 2),
{
    reveal_strlit(": ");
    let a = name_text(n);
    let sp = seq![' '];
    assert(blank(sp));
    has_parts(s, i, a, ": "@);
    let k = i + a.len();
    assert(": "@ =~= seq![':'] + sp);
    has_parts(s, k, seq![':'], sp);
    assert(s[k + 0] == ": "@[0]);
    gives_name(s, i, n, false);
    gives_mark(s, k, ':', ends_value(name_tok(n)));
    gives_blank(s, k + 1, sp, false);
    let h = seq![name_tok(n), Tok::Colon];
    gives_join(s, i, false, seq![name_tok(n)], k, seq![Tok::Colon], k + 1);
    assert(seq![name_tok(n)] + seq![Tok::Colon] =~= h);
    gives_join(s, i, false, h, k + 1, Seq::empty(), k + 2);
    assert(h + Seq::<Tok>::empty() =~= h);
}

/// An object reads back.
#[verifier::spinoff_prover]
proof fn gives_object(s: Seq<char>, i: int, v: Seq<ObjectFieldV>, av: bool)
    requires
        regular_fields(v),
        has(s, i, "{"@ + object_text(v) + "}"@),
    ensures
        gives(
            s,
            i,
            av,
            seq![Tok::LBrace] + fields_toks(v) + seq![Tok::RBrace],
            i + ("{"@ + object_text(v) + "}"@).len(),
        ),
    decreases v, 1int,
{
    reveal_strlit("{");
    reveal_strlit("}");
    let x = object_text(v);
    let k = fields_toks(v);
    assert("{"@ =~= seq!['{']);
    assert("}"@ =~= seq!['}']);
    has_parts(s, i, "{"@ + x, "}"@);
    has_parts(s, i, "{"@, x);
    let m = i + 1 + x.len();
    assert(s[m + 0] == "}"@[0]);
    gives_mark(s, i, '{', av);
    gives_fields(s, i + 1, v);
    gives_join(s, i, av, seq![Tok::LBrace], i + 1, k, m);
    gives_mark(s, m, '}', value_after(seq![Tok::LBrace] + k, av));
    gives_join(s, i, av, seq![Tok::LBrace] + k, m, seq![Tok::RBrace], m + 1);
}

/// Arrays and calls read back.
pub proof fn gives_call(s: Seq<char>, i: int, e: ExprV, av: bool)
    requires
        regular(e),
        e is Array || e is Reducer || e is Call || e is If,
        has(s, i, expr_text(e)),
    ensures
        gives(s, i, av, toks(e), i + expr_text(e).len()),
    decreases e, 2int,
{
    if e is Array {
        gives_array(s, i, e, av);
    } else if e is Reducer {
        gives_reducer(s, i, e, av);
    } else if e is Call {
        gives_function(s, i, e, av);
    } else {
        gives_if(s, i, e, av);
    }
}

/// An array reads back.
#[verifier::spinoff_prover]
#[verifier::rlimit(60)]
proof fn gives_array(s: Seq<char>, i: int, e: ExprV, av: bool)
    requires
        regular(e),
        e is Array,
        has(s, i, expr_text(e)),
    ensures
        gives(s, i, av, toks(e), i + expr_text(e).len()),
    decreases e, 1int,
{
    double_texts();
    starting_idents();
    match e {
        ExprV::Array(v) => {
            let x = exprs_text(v);
            has_parts(s, i, "["@ + x, "]"@);
            has_parts(s, i, "["@, x);
            let k = i + 1 + x.len();
            assert(s[k + 0] == "]"@[0]);
            gives_mark(s, i, '[', av);
            gives_list(s, i + 1, v, false);
            gives_mark(s, k, ']', value_after(list_toks(v), false));
            gives_join(s, i, av, seq![Tok::LBrack], i + 1, list_toks(v), k);
            assert(value_after(seq![Tok::LBrack] + list_toks(v), av) == value_after(
                list_toks(v),
                false,
            )) by {
                if list_toks(v).len() > 0 {
                    assert((seq![Tok::LBrack] + list_toks(v)).last() == list_toks(v).last());
                } else {
                    assert(seq![Tok::LBrack] + list_toks(v) =~= seq![Tok::LBrack]);
                }
            }
            gives_join(
                s,
                i,
                av,
                seq![Tok::LBrack] + list_toks(v),
                k,
                seq![Tok::RBrack],
                k + 1,
            );
        },
        _ => {},
    }
}

/// A reducer reads back.
#[verifier::spinoff_prover]
#[verifier::rlimit(60)]
proof fn gives_reducer(s: Seq<char>, i: int, e: ExprV, av: bool)
    requires
        regular(e),
        e is Reducer,
        has(s, i, expr_text(e)),
    ensures
        gives(s, i, av, toks(e), i + expr_text(e).len()),
    decreases e, 1int,
{
    double_texts();
    starting_idents();
    match e {
        ExprV::Reducer { op, arg } => {
            let n = reducer_name(op);
            let head = seq![Tok::Ident(n), Tok::LParen];
            match arg {
                Some(a) => {
                    let x = expr_text(*a);
                    assert(expr_text(e) =~= (n + seq!['(']) + x + ")"@);
                    has_parts(s, i, (n + seq!['(']) + x, ")"@);
                    has_parts(s, i, n + seq!['('], x);
                    let j = i + n.len() + 1;
                    let k = j + x.len();
                    assert(s[k + 0] == ")"@[0]);
                    gives_head(s, i, n, av);
                    gives_expr(s, j, *a, false);
                    gives_mark(s, k, ')', value_after(toks(*a), false));
                    super::layout_parse::first_tok(*a);
                    gives_three(s, i, av, head, j, toks(*a), k, seq![Tok::RParen], k + 1);
                },
                None => {
                    assert(expr_text(e) =~= (n + seq!['(']) + ")"@);
                    has_parts(s, i, n + seq!['('], ")"@);
                    gives_head(s, i, n, av);
                    let j = i + n.len() + 1;
                    gives_mark(s, j, ')', false);
                    gives_join(s, i, av, head, j, seq![Tok::RParen], j + 1);
                    assert(head + seq![Tok::RParen] =~= seq![
                        Tok::Ident(n),
                        Tok::LParen,
                        Tok::RParen,
                    ]);
                },
            }
        },
        _ => {},
    }
}

/// A function call reads back.
#[verifier::spinoff_prover]
#[verifier::rlimit(60)]
proof fn gives_function(s: Seq<char>, i: int, e: ExprV, av: bool)
    requires
        regular(e),
        e is Call,
        has(s, i, expr_text(e)),
    ensures
        gives(s, i, av, toks(e), i + expr_text(e).len()),
    decreases e, 1int,
{
    double_texts();
    starting_idents();
    match e {
        ExprV::Call(n, args) => {
            let x = exprs_text(args);
            let head = seq![Tok::Ident(n), Tok::LParen];
            assert(expr_text(e) =~= (n + seq!['(']) + x + ")"@);
            has_parts(s, i, (n + seq!['(']) + x, ")"@);
            has_parts(s, i, n + seq!['('], x);
            let j = i + n.len() + 1;
            let k = j + x.len();
            assert(s[k + 0] == ")"@[0]);
            gives_head(s, i, n, av);
            gives_list(s, j, args, false);
            gives_mark(s, k, ')', value_after(list_toks(args), false));
            gives_join(s, i, av, head, j, list_toks(args), k);
            assert(value_after(head + list_toks(args), av) == value_after(
                list_toks(args),
                false,
            )) by {
                if list_toks(args).len() > 0 {
                    assert((head + list_toks(args)).last() == list_toks(args).last());
                } else {
                    assert(head + list_toks(args) =~= head);
                }
            }
            gives_join(s, i, av, head + list_toks(args), k, seq![Tok::RParen], k + 1);
        },
        _ => {},
    }
}

/// A conditional reads back.
#[verifier::spinoff_prover]
#[verifier::rlimit(60)]
proof fn gives_if(s: Seq<char>, i: int, e: ExprV, av: bool)
    requires
        regular(e),
        e is If,
        has(s, i, expr_text(e)),
    ensures
        gives(s, i, av, toks(e), i + expr_text(e).len()),
    decreases e, 1int,
{
    double_texts();
    starting_idents();
    match e {
        ExprV::If { cond, then_branch, else_branch } => {
            let head = seq![Tok::Ident(kw::IF@), Tok::LParen];
            let x = expr_text(*cond);
            let y = expr_text(*then_branch);
            let z = expr_text(*else_branch);
            let h = kw::IF@ + seq!['('];
            let c = ", "@;
            assert(expr_text(e) == h + x + c + y + c + z + ")"@);
            has_parts(s, i, h + x + c + y + c + z, ")"@);
            has_parts(s, i, h + x + c + y + c, z);
            has_parts(s, i, h + x + c + y, c);
            has_parts(s, i, h + x + c, y);
            has_parts(s, i, h + x, c);
            has_parts(s, i, h, x);
            let j1 = i + h.len();
            let k1 = j1 + x.len();
            let j2 = k1 + 2;
            let k2 = j2 + y.len();
            let j3 = k2 + 2;
            let k3 = j3 + z.len();
            assert(s[k1 + 0] == c[0]);
            assert(s[k2 + 0] == c[0]);
            assert(s[k3 + 0] == ")"@[0]);
            super::layout_parse::first_tok(*cond);
            super::layout_parse::first_tok(*then_branch);
            super::layout_parse::first_tok(*else_branch);
            gives_head(s, i, kw::IF@, av);
            gives_expr(s, j1, *cond, false);
            gives_comma(s, k1, value_after(toks(*cond), false));
            gives_expr(s, j2, *then_branch, false);
            gives_comma(s, k2, value_after(toks(*then_branch), false));
            gives_expr(s, j3, *else_branch, false);
            gives_mark(s, k3, ')', value_after(toks(*else_branch), false));
            let comma = seq![Tok::Comma];
            gives_three(s, i, av, head, j1, toks(*cond), k1, comma, j2);
            let first = head + toks(*cond) + comma;
            assert(first.last() == Tok::Comma);
            gives_three(s, i, av, first, j2, toks(*then_branch), k2, comma, j3);
            let second = first + toks(*then_branch) + comma;
            assert(second.last() == Tok::Comma);
            gives_three(s, i, av, second, j3, toks(*else_branch), k3, seq![Tok::RParen], k3 + 1);
        },
        _ => {},
    }
}

} // verus!
