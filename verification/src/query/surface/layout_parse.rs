//! The parser reads the tokens of an expression as that expression.
use vstd::prelude::*;

use super::super::ast::{type_name_round_trip, CompareOp};
use super::super::grammar::kw;
use super::super::lexer::{Tok, TokAt};
use super::super::QueryFault;
use super::ast::{AggOp, ExprV, ObjectFieldV, PathExprV, PathRootV, PathSegV};
use super::format::{ends_in_dot, is_atom, is_word, joins_words, level, op_level, reducer_name};
use super::layout_tokens::{
    and_expr_more, and_expr_step, and_expr_stop, atom_toks, beside_toks, binary_tok, closes,
    compare_expr_step, compare_from_steps, compare_tok, compared_toks, default_toks, field_toks,
    fields_toks, follows, got, in_parens, joining_words, leaves_dot, list_toks, may_follow,
    name_tok, not_expr_step, operand_toks, or_expr_more, or_expr_step, or_expr_stop, parens_step,
    path_reads, path_toks, product_more, product_step, product_stop, read_at, regular, regular_all,
    regular_entry, regular_fields, regular_seg, root_toks, seg_toks, segs_first, segs_toks, stands,
    stands_parts, sum_more, sum_step, sum_stop, toks, unary_step,
};
use super::numbers_read::index_reads_back;
use super::syntax::{
    and_expr, and_from, array_items, call, compare_expr, compare_op, comparison, default_clause,
    expr_list, if_call, if_end, kind, moved, object_field, object_fields, or_expr, or_from, path,
    path_expr, primary, product, product_from, reducer_call, reducer_of, sum, sum_from, word_expr,
};

verus! {

/// The words that start an expression, a query or a negation are different
/// words.
pub proof fn starting_words()
    ensures
        kw::TRUE@ != kw::FALSE@,
        kw::TRUE@ != kw::NULL@,
        kw::TRUE@ != kw::IF@,
        kw::TRUE@ != kw::NOT@,
        kw::TRUE@ != kw::FROM@,
        kw::TRUE@ != kw::FIELDS@,
        kw::TRUE@ != kw::SUM@,
        kw::TRUE@ != kw::COUNT@,
        kw::TRUE@ != kw::AVG@,
        kw::TRUE@ != kw::MIN@,
        kw::TRUE@ != kw::MAX@,
        kw::FALSE@ != kw::NULL@,
        kw::FALSE@ != kw::IF@,
        kw::FALSE@ != kw::NOT@,
        kw::FALSE@ != kw::FROM@,
        kw::FALSE@ != kw::FIELDS@,
        kw::FALSE@ != kw::SUM@,
        kw::FALSE@ != kw::COUNT@,
        kw::FALSE@ != kw::AVG@,
        kw::FALSE@ != kw::MIN@,
        kw::FALSE@ != kw::MAX@,
        kw::NULL@ != kw::IF@,
        kw::NULL@ != kw::NOT@,
        kw::NULL@ != kw::FROM@,
        kw::NULL@ != kw::FIELDS@,
        kw::NULL@ != kw::SUM@,
        kw::NULL@ != kw::COUNT@,
        kw::NULL@ != kw::AVG@,
        kw::NULL@ != kw::MIN@,
        kw::NULL@ != kw::MAX@,
        kw::IF@ != kw::NOT@,
        kw::IF@ != kw::FROM@,
        kw::IF@ != kw::FIELDS@,
        kw::IF@ != kw::SUM@,
        kw::IF@ != kw::COUNT@,
        kw::IF@ != kw::AVG@,
        kw::IF@ != kw::MIN@,
        kw::IF@ != kw::MAX@,
        kw::NOT@ != kw::FROM@,
        kw::NOT@ != kw::FIELDS@,
        kw::NOT@ != kw::SUM@,
        kw::NOT@ != kw::COUNT@,
        kw::NOT@ != kw::AVG@,
        kw::NOT@ != kw::MIN@,
        kw::NOT@ != kw::MAX@,
        kw::FROM@ != kw::FIELDS@,
        kw::FROM@ != kw::SUM@,
        kw::FROM@ != kw::COUNT@,
        kw::FROM@ != kw::AVG@,
        kw::FROM@ != kw::MIN@,
        kw::FROM@ != kw::MAX@,
        kw::FIELDS@ != kw::SUM@,
        kw::FIELDS@ != kw::COUNT@,
        kw::FIELDS@ != kw::AVG@,
        kw::FIELDS@ != kw::MIN@,
        kw::FIELDS@ != kw::MAX@,
        kw::SUM@ != kw::COUNT@,
        kw::SUM@ != kw::AVG@,
        kw::SUM@ != kw::MIN@,
        kw::SUM@ != kw::MAX@,
        kw::COUNT@ != kw::AVG@,
        kw::COUNT@ != kw::MIN@,
        kw::COUNT@ != kw::MAX@,
        kw::AVG@ != kw::MIN@,
        kw::AVG@ != kw::MAX@,
        kw::MIN@ != kw::MAX@,
{
    reveal_strlit("true");
    reveal_strlit("false");
    reveal_strlit("null");
    reveal_strlit("if");
    reveal_strlit("not");
    reveal_strlit("from");
    reveal_strlit("fields");
    reveal_strlit("sum");
    reveal_strlit("count");
    reveal_strlit("avg");
    reveal_strlit("min");
    reveal_strlit("max");
    assert(kw::TRUE@.len() == 4);
    assert(kw::FALSE@.len() == 5);
    assert(kw::NULL@.len() == 4);
    assert(kw::IF@.len() == 2);
    assert(kw::NOT@.len() == 3);
    assert(kw::FROM@.len() == 4);
    assert(kw::FIELDS@.len() == 6);
    assert(kw::SUM@.len() == 3);
    assert(kw::COUNT@.len() == 5);
    assert(kw::AVG@.len() == 3);
    assert(kw::MIN@.len() == 3);
    assert(kw::MAX@.len() == 3);
    assert(kw::TRUE@[0] == 't');
    assert(kw::TRUE@[1] == 'r');
    assert(kw::TRUE@[2] == 'u');
    assert(kw::FALSE@[0] == 'f');
    assert(kw::FALSE@[1] == 'a');
    assert(kw::FALSE@[2] == 'l');
    assert(kw::NULL@[0] == 'n');
    assert(kw::NULL@[1] == 'u');
    assert(kw::NULL@[2] == 'l');
    assert(kw::NOT@[0] == 'n');
    assert(kw::NOT@[1] == 'o');
    assert(kw::NOT@[2] == 't');
    assert(kw::FROM@[0] == 'f');
    assert(kw::FROM@[1] == 'r');
    assert(kw::FROM@[2] == 'o');
    assert(kw::SUM@[0] == 's');
    assert(kw::SUM@[1] == 'u');
    assert(kw::SUM@[2] == 'm');
    assert(kw::COUNT@[0] == 'c');
    assert(kw::COUNT@[1] == 'o');
    assert(kw::COUNT@[2] == 'u');
    assert(kw::AVG@[0] == 'a');
    assert(kw::AVG@[1] == 'v');
    assert(kw::AVG@[2] == 'g');
    assert(kw::MIN@[0] == 'm');
    assert(kw::MIN@[1] == 'i');
    assert(kw::MIN@[2] == 'n');
    assert(kw::MAX@[0] == 'm');
    assert(kw::MAX@[1] == 'a');
    assert(kw::MAX@[2] == 'x');
}

proof fn reducer_names(op: AggOp)
    ensures
        reducer_of(reducer_name(op)) == Some(op),
        reducer_name(op) != kw::TRUE@,
        reducer_name(op) != kw::FALSE@,
        reducer_name(op) != kw::NULL@,
        reducer_name(op) != kw::IF@,
        reducer_name(op) != kw::NOT@,
        reducer_name(op) != kw::FROM@,
        reducer_name(op) != kw::FIELDS@,
{
    starting_words();
}

/// An expression in parentheses or without them.
pub open spec fn wrapped(e: ExprV, paren: bool) -> Seq<Tok> {
    if paren {
        in_parens(toks(e))
    } else {
        toks(e)
    }
}

/// The tokens of an operand.
pub proof fn operand_pieces(e: ExprV, min: int, op: CompareOp)
    ensures
        operand_toks(e, min) == wrapped(e, level(e) < min),
        beside_toks(e, min) == wrapped(e, level(e) < min || joins_words(e)),
        atom_toks(e) == wrapped(e, !is_atom(e)),
        compared_toks(e, op) == wrapped(
            e,
            level(e) < 4 || (is_word(op) && joins_words(e)),
        ),
{
    assert(beside_toks(e, 4) == wrapped(e, level(e) < 4 || joins_words(e)));
    assert(operand_toks(e, 4) == wrapped(e, level(e) < 4));
}

/// With what an expression can start.
pub open spec fn starts(e: ExprV, k: Tok) -> bool {
    &&& k != Tok::Ident(kw::FROM@)
    &&& k != Tok::Ident(kw::FIELDS@)
    &&& level(e) >= 3 ==> k != Tok::Ident(kw::NOT@)
    &&& level(e) == 7 ==> k != Tok::Minus
    &&& k != Tok::RParen
    &&& k != Tok::RBrack
}

#[verifier::spinoff_prover]
pub proof fn first_tok(e: ExprV)
    requires
        regular(e),
    ensures
        toks(e).len() > 0,
        starts(e, toks(e)[0]),
    decreases e,
{
    starting_words();
    match e {
        ExprV::Path(p) => {
            segs_first(p.root, p.segments);
        },
        ExprV::Compare(l, op, r) => {
            first_tok(*l);
            operand_pieces(*l, 4, op);
        },
        ExprV::In(l, r) => {
            first_tok(*l);
            operand_pieces(*l, 4, CompareOp::Eq);
        },
        ExprV::NotIn(l, r) => {
            first_tok(*l);
            operand_pieces(*l, 4, CompareOp::Eq);
        },
        ExprV::And(l, r) => {
            first_tok(*l);
            operand_pieces(*l, 1, CompareOp::Eq);
        },
        ExprV::Or(l, r) => {
            first_tok(*l);
            operand_pieces(*l, 0, CompareOp::Eq);
        },
        ExprV::Exists(x) => {
            first_tok(*x);
            operand_pieces(*x, 4, CompareOp::Eq);
        },
        ExprV::TypeTest { value, .. } => {
            first_tok(*value);
            operand_pieces(*value, 4, CompareOp::Eq);
        },
        ExprV::Binary { op, lhs, rhs } => {
            first_tok(*lhs);
            operand_pieces(*lhs, op_level(op), CompareOp::Eq);
        },
        ExprV::Reducer { op, arg } => {
            reducer_names(op);
        },
        _ => {},
    }
}

proof fn follows_up(n: int, m: int, k: Tok)
    requires
        n <= m,
        follows(n, k),
    ensures
        follows(m, k),
{
}

/// What is read at a level is read at every looser one, where no operator of
/// theirs follows.
#[verifier::spinoff_prover]
proof fn climb(t: Seq<TokAt>, i: int, x: ExprV, j: int, m: int, n: int)
    requires
        0 <= n <= m <= 7,
        read_at(m, t, i) == got(x, j),
        moved(t, i, j),
        follows(n, kind(t, j)),
        m == 7 && n < 7 ==> kind(t, i) != Tok::Minus,
        m >= 3 && n <= 2 ==> kind(t, i) != Tok::Ident(kw::NOT@),
    ensures
        read_at(n, t, i) == got(x, j),
    decreases m - n,
{
    if n < m {
        follows_up(n, n + 1, kind(t, j));
        climb(t, i, x, j, m, n + 1);
        joining_words();
        if n == 0 {
            or_expr_step(t, i, x, j);
            or_expr_stop(t, x, j);
        } else if n == 1 {
            and_expr_step(t, i, x, j);
            and_expr_stop(t, x, j);
        } else if n == 2 {
            not_expr_step(t, i);
        } else if n == 3 {
            compare_expr_step(t, i, x, j);
            compare_from_steps(t, x, j);
        } else if n == 4 {
            sum_step(t, i, x, j);
            sum_stop(t, x, j);
        } else if n == 5 {
            product_step(t, i, x, j);
            product_stop(t, x, j);
        } else {
            unary_step(t, i);
        }
    }
}

/// An operand reads back.
#[verifier::spinoff_prover]
pub proof fn operand_reads(t: Seq<TokAt>, i: int, e: ExprV, paren: bool, n: int)
    requires
        regular(e),
        0 <= n <= 7,
        paren || n <= level(e),
        stands(t, i, wrapped(e, paren)),
        follows(n, kind(t, i + wrapped(e, paren).len())),
        !paren && ends_in_dot(e) ==> leaves_dot(kind(t, i + wrapped(e, paren).len())),
    ensures
        read_at(n, t, i) == got(e, i + wrapped(e, paren).len()),
        wrapped(e, paren).len() > 0,
    decreases e, 5int,
{
    first_tok(e);
    if paren {
        let k = toks(e);
        stands_parts(t, i, seq![Tok::LParen] + k, seq![Tok::RParen]);
        stands_parts(t, i, seq![Tok::LParen], k);
        assert(t[i + 0].kind == seq![Tok::LParen][0]);
        assert(t[i + 1 + 0].kind == k[0]);
        assert(t[i + (1 + k.len()) + 0].kind == seq![Tok::RParen][0]);
        expr_reads(t, i + 1, e, 0);
        parens_step(t, i, e, i + 1 + k.len());
        climb(t, i, e, i + k.len() + 2, 7, n);
    } else {
        expr_reads(t, i, e, n);
    }
}

/// An expression reads back at each level that it binds tightly enough for.
#[verifier::spinoff_prover]
pub proof fn expr_reads(t: Seq<TokAt>, i: int, e: ExprV, n: int)
    requires
        regular(e),
        0 <= n <= level(e),
        stands(t, i, toks(e)),
        may_follow(e, n, kind(t, i + toks(e).len())),
    ensures
        read_at(n, t, i) == got(e, i + toks(e).len()),
    decreases e, 3int,
{
    let j = i + toks(e).len();
    first_tok(e);
    follows_up(n, level(e), kind(t, j));
    own_level_reads(t, i, e);
    assert(t[i + 0].kind == toks(e)[0]);
    climb(t, i, e, j, level(e), n);
}

/// An expression reads back at its own level.
#[verifier::spinoff_prover]
#[verifier::rlimit(60)]
proof fn own_level_reads(t: Seq<TokAt>, i: int, e: ExprV)
    requires
        regular(e),
        stands(t, i, toks(e)),
        may_follow(e, level(e), kind(t, i + toks(e).len())),
    ensures
        read_at(level(e), t, i) == got(e, i + toks(e).len()),
    decreases e, 2int,
{
    let j = i + toks(e).len();
    first_tok(e);
    joining_words();
    match e {
        ExprV::Or(l, r) => {
            or_reaches(t, i, e);
            or_expr_stop(t, e, j);
        },
        ExprV::And(l, r) => {
            and_reaches(t, i, e);
            and_expr_stop(t, e, j);
        },
        ExprV::Not(x) => {
            let paren = level(*x) < 2 || joins_words(*x);
            operand_pieces(*x, 2, CompareOp::Eq);
            assert(toks(e) == seq![Tok::Ident(kw::NOT@)] + wrapped(*x, paren));
            stands_parts(t, i, seq![Tok::Ident(kw::NOT@)], wrapped(*x, paren));
            assert(t[i + 0].kind == seq![Tok::Ident(kw::NOT@)][0]);
            operand_reads(t, i + 1, *x, paren, 2);
            not_expr_step(t, i);
        },
        ExprV::Binary { op, lhs, rhs } => {
            if op_level(op) == 4 {
                sum_reaches(t, i, e);
                sum_stop(t, e, j);
            } else {
                product_reaches(t, i, e);
                product_stop(t, e, j);
            }
        },
        ExprV::Neg(x) => {
            let paren = !is_atom(*x);
            operand_pieces(*x, 7, CompareOp::Eq);
            assert(toks(e) == seq![Tok::Minus] + wrapped(*x, paren));
            stands_parts(t, i, seq![Tok::Minus], wrapped(*x, paren));
            assert(t[i + 0].kind == seq![Tok::Minus][0]);
            follows_up(6, 7, kind(t, j));
            operand_reads(t, i + 1, *x, paren, 7);
            first_tok(*x);
            assert(t[i + 1 + 0].kind == wrapped(*x, paren)[0]);
            unary_step(t, i + 1);
            unary_step(t, i);
        },
        ExprV::Compare(..) => {
            compare_reads(t, i, e);
        },
        ExprV::In(..) => {
            compare_reads(t, i, e);
        },
        ExprV::NotIn(..) => {
            compare_reads(t, i, e);
        },
        ExprV::Exists(..) => {
            compare_reads(t, i, e);
        },
        ExprV::TypeTest { .. } => {
            compare_reads(t, i, e);
        },
        _ => {
            primary_reads(t, i, e);
        },
    }
}

/// Comparisons and tests read back.
#[verifier::spinoff_prover]
#[verifier::rlimit(60)]
proof fn compare_reads(t: Seq<TokAt>, i: int, e: ExprV)
    requires
        regular(e),
        e is Compare || e is In || e is NotIn || e is Exists || e is TypeTest,
        stands(t, i, toks(e)),
        may_follow(e, 3, kind(t, i + toks(e).len())),
    ensures
        compare_expr(t, i) == got(e, i + toks(e).len()),
    decreases e, 1int,
{
    let j = i + toks(e).len();
    joining_words();
    follows_up(3, 4, kind(t, j));
    match e {
        ExprV::Compare(l, op, r) => {
            let p = if is_word(op) {
                level(*l) < 4 || joins_words(*l)
            } else {
                level(*l) < 4
            };
            let q = if is_word(op) {
                level(*r) < 4 || joins_words(*r)
            } else {
                level(*r) < 4
            };
            operand_pieces(*l, 4, op);
            operand_pieces(*r, 4, op);
            assert(regular(*l) && regular(*r));
            let a = wrapped(*l, p);
            let b = seq![compare_tok(op)];
            let c = wrapped(*r, q);
            assert(toks(e) == a + b + c);
            stands_parts(t, i, a + b, c);
            stands_parts(t, i, a, b);
            let k = i + a.len();
            assert(t[k + 0].kind == b[0]);
            operand_reads(t, i, *l, p, 4);
            operand_reads(t, k + 1, *r, q, 4);
            compare_expr_step(t, i, *l, k);
            compare_from_steps(t, *l, k);
            assert(compare_op(kind(t, k)) == Some(op));
            assert(comparison(*l, op, *r) == e) by {
                if let ExprV::Path(x) = *l {
                    if x.segments.len() > 0 {
                        assert(regular_seg(x.segments[x.segments.len() - 1]));
                    }
                }
            }
        },
        ExprV::In(l, r) => {
            let p = level(*l) < 4 || joins_words(*l);
            let q = level(*r) < 4 || joins_words(*r);
            operand_pieces(*l, 4, CompareOp::Eq);
            operand_pieces(*r, 4, CompareOp::Eq);
            let a = wrapped(*l, p);
            let b = seq![Tok::Ident(kw::IN@)];
            let c = wrapped(*r, q);
            assert(toks(e) == a + b + c);
            stands_parts(t, i, a + b, c);
            stands_parts(t, i, a, b);
            let k = i + a.len();
            assert(t[k + 0].kind == b[0]);
            operand_reads(t, i, *l, p, 4);
            operand_reads(t, k + 1, *r, q, 4);
            compare_expr_step(t, i, *l, k);
            compare_from_steps(t, *l, k);
        },
        ExprV::NotIn(l, r) => {
            let p = level(*l) < 4 || joins_words(*l);
            let q = level(*r) < 4 || joins_words(*r);
            operand_pieces(*l, 4, CompareOp::Eq);
            operand_pieces(*r, 4, CompareOp::Eq);
            let a = wrapped(*l, p);
            let b = seq![Tok::Ident(kw::NOT@), Tok::Ident(kw::IN@)];
            let c = wrapped(*r, q);
            assert(toks(e) == a + b + c);
            stands_parts(t, i, a + b, c);
            stands_parts(t, i, a, b);
            let k = i + a.len();
            assert(t[k + 0].kind == b[0]);
            assert(t[k + 1].kind == b[1]);
            operand_reads(t, i, *l, p, 4);
            operand_reads(t, k + 2, *r, q, 4);
            compare_expr_step(t, i, *l, k);
            compare_from_steps(t, *l, k);
        },
        ExprV::Exists(x) => {
            let p = level(*x) < 4 || joins_words(*x);
            operand_pieces(*x, 4, CompareOp::Eq);
            let a = wrapped(*x, p);
            let b = seq![Tok::Ident(kw::EXISTS@)];
            assert(toks(e) == a + b);
            stands_parts(t, i, a, b);
            let k = i + a.len();
            assert(t[k + 0].kind == b[0]);
            operand_reads(t, i, *x, p, 4);
            compare_expr_step(t, i, *x, k);
            compare_from_steps(t, *x, k);
        },
        ExprV::TypeTest { value, kind: ty, negated } => {
            let p = level(*value) < 4 || joins_words(*value);
            operand_pieces(*value, 4, CompareOp::Eq);
            let a = wrapped(*value, p);
            let b = if negated {
                seq![Tok::Ident(kw::IS@), Tok::Ident(kw::NOT@), Tok::Ident(ty.name())]
            } else {
                seq![Tok::Ident(kw::IS@), Tok::Ident(ty.name())]
            };
            assert(toks(e) == a + b);
            stands_parts(t, i, a, b);
            let k = i + a.len();
            assert(t[k + 0].kind == b[0]);
            assert(t[k + 1].kind == b[1]);
            if negated {
                assert(t[k + 2].kind == b[2]);
            }
            operand_reads(t, i, *value, p, 4);
            compare_expr_step(t, i, *value, k);
            compare_from_steps(t, *value, k);
            type_name_round_trip(ty);
            type_is_no_word(ty);
        },
        _ => {},
    }
}

proof fn type_is_no_word(ty: super::ast::JsonTypeKind)
    ensures
        ty.name() != kw::NOT@,
{
    reveal_strlit("not");
    reveal_strlit("string");
    reveal_strlit("number");
    reveal_strlit("bool");
    reveal_strlit("null");
    reveal_strlit("array");
    reveal_strlit("object");
    assert(kw::NOT@.len() == 3);
}

/// The parser comes to the end of a chain with the chain in hand.
#[verifier::spinoff_prover]
proof fn or_reaches(t: Seq<TokAt>, i: int, e: ExprV)
    requires
        regular(e),
        e is Or,
        stands(t, i, toks(e)),
        follows(1, kind(t, i + toks(e).len())),
    ensures
        or_expr(t, i) == or_from(t, e, i + toks(e).len()),
    decreases e, 1int,
{
    joining_words();
    if let ExprV::Or(l, r) = e {
        let p = level(*l) < 0 || joins_words(*l);
        let q = level(*r) < 1 || joins_words(*r);
        operand_pieces(*l, 0, CompareOp::Eq);
        operand_pieces(*r, 1, CompareOp::Eq);
        let a = wrapped(*l, p);
        let b = seq![Tok::Ident(kw::OR@)];
        let c = wrapped(*r, q);
        assert(toks(e) == a + b + c);
        stands_parts(t, i, a + b, c);
        stands_parts(t, i, a, b);
        let k = i + a.len();
        assert(t[k + 0].kind == b[0]);
        if !p && *l is Or {
            or_reaches(t, i, *l);
        } else {
            operand_reads(t, i, *l, p, 1);
            or_expr_step(t, i, *l, k);
        }
        operand_reads(t, k + 1, *r, q, 1);
        or_expr_more(t, *l, k, *r, k + 1 + c.len());
    }
}

/// The parser comes to the end of a chain with the chain in hand.
#[verifier::spinoff_prover]
proof fn and_reaches(t: Seq<TokAt>, i: int, e: ExprV)
    requires
        regular(e),
        e is And,
        stands(t, i, toks(e)),
        follows(2, kind(t, i + toks(e).len())),
    ensures
        and_expr(t, i) == and_from(t, e, i + toks(e).len()),
    decreases e, 1int,
{
    joining_words();
    if let ExprV::And(l, r) = e {
        let p = level(*l) < 1 || joins_words(*l);
        let q = level(*r) < 2 || joins_words(*r);
        operand_pieces(*l, 1, CompareOp::Eq);
        operand_pieces(*r, 2, CompareOp::Eq);
        let a = wrapped(*l, p);
        let b = seq![Tok::Ident(kw::AND@)];
        let c = wrapped(*r, q);
        assert(toks(e) == a + b + c);
        stands_parts(t, i, a + b, c);
        stands_parts(t, i, a, b);
        let k = i + a.len();
        assert(t[k + 0].kind == b[0]);
        if !p && *l is And {
            and_reaches(t, i, *l);
        } else {
            operand_reads(t, i, *l, p, 2);
            and_expr_step(t, i, *l, k);
        }
        operand_reads(t, k + 1, *r, q, 2);
        and_expr_more(t, *l, k, *r, k + 1 + c.len());
    }
}

#[verifier::spinoff_prover]
proof fn sum_reaches(t: Seq<TokAt>, i: int, e: ExprV)
    requires
        regular(e),
        e is Binary,
        level(e) == 4,
        stands(t, i, toks(e)),
        may_follow(e, 5, kind(t, i + toks(e).len())),
    ensures
        sum(t, i) == sum_from(t, e, i + toks(e).len()),
    decreases e, 1int,
{
    if let ExprV::Binary { op, lhs, rhs } = e {
        let p = level(*lhs) < 4;
        let q = level(*rhs) < 5;
        operand_pieces(*lhs, 4, CompareOp::Eq);
        operand_pieces(*rhs, 5, CompareOp::Eq);
        let a = wrapped(*lhs, p);
        let b = seq![binary_tok(op)];
        let c = wrapped(*rhs, q);
        assert(toks(e) == a + b + c);
        stands_parts(t, i, a + b, c);
        stands_parts(t, i, a, b);
        let k = i + a.len();
        assert(t[k + 0].kind == b[0]);
        if !p && *lhs is Binary && level(*lhs) == 4 {
            sum_reaches(t, i, *lhs);
        } else {
            operand_reads(t, i, *lhs, p, 5);
            sum_step(t, i, *lhs, k);
        }
        operand_reads(t, k + 1, *rhs, q, 5);
        sum_more(t, *lhs, op, k, *rhs, k + 1 + c.len());
    }
}

#[verifier::spinoff_prover]
proof fn product_reaches(t: Seq<TokAt>, i: int, e: ExprV)
    requires
        regular(e),
        e is Binary,
        level(e) == 5,
        stands(t, i, toks(e)),
        may_follow(e, 6, kind(t, i + toks(e).len())),
    ensures
        product(t, i) == product_from(t, e, i + toks(e).len()),
    decreases e, 1int,
{
    if let ExprV::Binary { op, lhs, rhs } = e {
        let p = level(*lhs) < 5;
        let q = level(*rhs) < 6;
        operand_pieces(*lhs, 5, CompareOp::Eq);
        operand_pieces(*rhs, 6, CompareOp::Eq);
        let a = wrapped(*lhs, p);
        let b = seq![binary_tok(op)];
        let c = wrapped(*rhs, q);
        assert(toks(e) == a + b + c);
        stands_parts(t, i, a + b, c);
        stands_parts(t, i, a, b);
        let k = i + a.len();
        assert(t[k + 0].kind == b[0]);
        if !p && *lhs is Binary && level(*lhs) == 5 {
            product_reaches(t, i, *lhs);
        } else {
            operand_reads(t, i, *lhs, p, 6);
            product_step(t, i, *lhs, k);
        }
        operand_reads(t, k + 1, *rhs, q, 6);
        product_more(t, *lhs, op, k, *rhs, k + 1 + c.len());
    }
}

/// Where item `n` of a list starts.
pub open spec fn item_at(v: Seq<ExprV>, n: int) -> int {
    list_toks(v.take(n)).len() + if n > 0 {
        1int
    } else {
        0
    }
}

/// The items of a list stand one after the other, with commas between them.
proof fn item_stands(t: Seq<TokAt>, i: int, v: Seq<ExprV>, n: int)
    requires
        0 <= n < v.len(),
        stands(t, i, list_toks(v)),
    ensures
        stands(t, i + item_at(v, n), toks(v[n])),
        n + 1 < v.len() ==> kind(t, i + item_at(v, n) + toks(v[n]).len()) == Tok::Comma && item_at(
            v,
            n + 1,
        ) == item_at(v, n) + toks(v[n]).len() + 1,
        n + 1 == v.len() ==> item_at(v, n) + toks(v[n]).len() == list_toks(v).len(),
    decreases v.len(),
{
    let less = v.drop_last();
    let a = list_toks(less);
    let sep: Seq<Tok> = if v.len() == 1 {
        Seq::empty()
    } else {
        seq![Tok::Comma]
    };
    let b = toks(v.last());
    assert(list_toks(v) == a + sep + b);
    stands_parts(t, i, a + sep, b);
    stands_parts(t, i, a, sep);
    if n == v.len() - 1 {
        assert(v.take(n) =~= less);
        if v.len() == 1 {
            assert(less =~= Seq::empty());
        }
    } else {
        assert(less.take(n) =~= v.take(n));
        item_stands(t, i, less, n);
        assert(less[n] == v[n]);
        assert(t[i + a.len() + 0].kind == sep[0]);
        if n + 1 < less.len() {
            assert(less.take(n + 1) =~= v.take(n + 1));
        } else {
            assert(v.take(n + 1) =~= less);
        }
    }
}

proof fn regular_item(v: Seq<ExprV>, n: int)
    requires
        regular_all(v),
        0 <= n < v.len(),
    ensures
        regular(v[n]),
    decreases v.len(),
{
    if n < v.len() - 1 {
        regular_item(v.drop_last(), n);
    }
}

/// A list reads back, from item `n` on.
#[verifier::spinoff_prover]
pub proof fn list_reads(t: Seq<TokAt>, i: int, v: Seq<ExprV>, n: int)
    requires
        regular_all(v),
        0 <= n < v.len(),
        stands(t, i, list_toks(v)),
        closes(kind(t, i + list_toks(v).len())),
        leaves_dot(kind(t, i + list_toks(v).len())) || !ends_in_dot(v.last()),
        kind(t, i + list_toks(v).len()) != Tok::Comma,
    ensures
        expr_list(t, v.take(n), i + item_at(v, n)) == Ok::<(Seq<ExprV>, int), QueryFault>(
            (v, i + list_toks(v).len()),
        ),
    decreases v, v.len() - n,
{
    let at = i + item_at(v, n);
    item_stands(t, i, v, n);
    regular_item(v, n);
    first_tok(v[n]);
    assert(decreases_to!(v => v[n]));
    expr_reads(t, at, v[n], 0);
    let j = at + toks(v[n]).len();
    assert(v.take(n).push(v[n]) =~= v.take(n + 1));
    if n + 1 < v.len() {
        list_reads(t, i, v, n + 1);
        reveal_with_fuel(expr_list, 2);
        reveal(or_expr);
    } else {
        assert(v.take(n + 1) =~= v);
        reveal(expr_list);
        reveal(or_expr);
    }
}

/// The items of an array read back, from item `n` on.
#[verifier::spinoff_prover]
proof fn array_reads(t: Seq<TokAt>, i: int, v: Seq<ExprV>, n: int)
    requires
        regular_all(v),
        0 <= n < v.len(),
        stands(t, i, list_toks(v)),
        kind(t, i + list_toks(v).len()) == Tok::RBrack,
    ensures
        array_items(t, v.take(n), i + item_at(v, n)) == Ok::<(Seq<ExprV>, int), QueryFault>(
            (v, i + list_toks(v).len()),
        ),
    decreases v, v.len() - n,
{
    let at = i + item_at(v, n);
    item_stands(t, i, v, n);
    regular_item(v, n);
    first_tok(v[n]);
    assert(t[at + 0].kind == toks(v[n])[0]);
    assert(decreases_to!(v => v[n]));
    let j = at + toks(v[n]).len();
    expr_reads(t, at, v[n], 0);
    assert(v.take(n).push(v[n]) =~= v.take(n + 1));
    if n + 1 < v.len() {
        array_reads(t, i, v, n + 1);
        reveal_with_fuel(array_items, 2);
        reveal(or_expr);
    } else {
        assert(v.take(n + 1) =~= v);
        reveal(array_items);
        reveal(or_expr);
    }
}

/// Where field `n` of an object starts.
pub open spec fn field_at(v: Seq<ObjectFieldV>, n: int) -> int {
    fields_toks(v.take(n)).len() + if n > 0 {
        1int
    } else {
        0
    }
}

/// The fields of an object stand one after the other, with commas between
/// them.
#[verifier::spinoff_prover]
proof fn field_stands(t: Seq<TokAt>, i: int, v: Seq<ObjectFieldV>, n: int)
    requires
        regular_fields(v),
        0 <= n < v.len(),
        stands(t, i, fields_toks(v)),
    ensures
        regular_entry(v[n]),
        stands(t, i + field_at(v, n), field_toks(v[n])),
        n + 1 < v.len() ==> kind(t, i + field_at(v, n) + field_toks(v[n]).len()) == Tok::Comma
            && field_at(v, n + 1) == field_at(v, n) + field_toks(v[n]).len() + 1,
        n + 1 == v.len() ==> field_at(v, n) + field_toks(v[n]).len() == fields_toks(v).len(),
    decreases v.len(),
{
    let less = v.drop_last();
    let a = fields_toks(less);
    let sep: Seq<Tok> = if v.len() == 1 {
        Seq::empty()
    } else {
        seq![Tok::Comma]
    };
    let b = field_toks(v.last());
    assert(fields_toks(v) == a + sep + b);
    stands_parts(t, i, a + sep, b);
    stands_parts(t, i, a, sep);
    if n == v.len() - 1 {
        assert(v.take(n) =~= less);
        if v.len() == 1 {
            assert(less =~= Seq::empty());
        }
    } else {
        assert(less.take(n) =~= v.take(n));
        field_stands(t, i, less, n);
        assert(less[n] == v[n]);
        assert(t[i + a.len() + 0].kind == sep[0]);
        if n + 1 < less.len() {
            assert(less.take(n + 1) =~= v.take(n + 1));
        } else {
            assert(v.take(n + 1) =~= less);
        }
    }
}

/// The fields of an object read back, from field `n` on.
#[verifier::spinoff_prover]
proof fn fields_read(t: Seq<TokAt>, i: int, v: Seq<ObjectFieldV>, n: int)
    requires
        regular_fields(v),
        0 <= n < v.len(),
        stands(t, i, fields_toks(v)),
        kind(t, i + fields_toks(v).len()) == Tok::RBrace,
    ensures
        object_fields(t, v.take(n), i + field_at(v, n)) == Ok::<(Seq<ObjectFieldV>, int), QueryFault>(
            (v, i + fields_toks(v).len()),
        ),
    decreases v, v.len() - n,
{
    let at = i + field_at(v, n);
    field_stands(t, i, v, n);
    assert(decreases_to!(v => v[n]));
    field_reads(t, at, v[n]);
    assert(v.take(n).push(v[n]) =~= v.take(n + 1));
    if n + 1 < v.len() {
        fields_read(t, i, v, n + 1);
        reveal_with_fuel(object_fields, 2);
        reveal(object_field);
    } else {
        assert(v.take(n + 1) =~= v);
        reveal(object_fields);
        reveal(object_field);
    }
}

/// A field of an object reads back.
#[verifier::spinoff_prover]
proof fn field_reads(t: Seq<TokAt>, i: int, f: ObjectFieldV)
    requires
        regular_entry(f),
        stands(t, i, field_toks(f)),
        kind(t, i + field_toks(f).len()) == Tok::Comma || kind(t, i + field_toks(f).len())
            == Tok::RBrace,
    ensures
        object_field(t, i) == Ok::<(ObjectFieldV, int), QueryFault>((f, i + field_toks(f).len())),
        kind(t, i) != Tok::RBrace,
    decreases f, 0int,
{
    let h = seq![name_tok(f.name), Tok::Colon];
    let a = toks(f.value);
    let d = default_toks(f.default);
    stands_parts(t, i, h + a, d);
    stands_parts(t, i, h, a);
    assert(t[i + 0].kind == h[0]);
    assert(t[i + 1].kind == h[1]);
    let k = i + 2 + a.len();
    assert(decreases_to!(f => f.value));
    match f.default {
        Some(e) => {
            let q = seq![Tok::QuestionQuestion];
            stands_parts(t, k, q, toks(e));
            assert(t[k + 0].kind == q[0]);
            assert(decreases_to!(f => f.default));
            assert(decreases_to!(f.default => e));
            expr_reads(t, k + 1, e, 0);
        },
        None => {},
    }
    first_tok(f.value);
    expr_reads(t, i + 2, f.value, 0);
    reveal(object_field);
    reveal(or_expr);
    reveal(default_clause);
}

/// Behind its root a path goes on with a dot or a bracket.
proof fn segs_second(n: Seq<char>, v: Seq<PathSegV>)
    requires
        v.len() > 0,
        forall|k: int| 0 <= k < v.len() ==> regular_seg(#[trigger] v[k]),
    ensures
        segs_toks(PathRootV::Name(n), v).len() > 1,
        segs_toks(PathRootV::Name(n), v)[1] is Dot || segs_toks(PathRootV::Name(n), v)[1] is LBrack,
    decreases v.len(),
{
    let root = PathRootV::Name(n);
    let less = v.drop_last();
    assert(regular_seg(v[v.len() - 1]));
    if less.len() > 0 {
        assert forall|k: int| 0 <= k < less.len() implies regular_seg(#[trigger] less[k]) by {
            assert(less[k] == v[k]);
        }
        segs_second(n, less);
        assert(segs_toks(root, v)[1] == segs_toks(root, less)[1]);
    } else {
        assert(less =~= Seq::empty());
        assert(segs_toks(root, less) =~= root_toks(root));
        assert(segs_toks(root, v) == root_toks(root) + seg_toks(root, v.last(), true));
        assert(segs_toks(root, v)[1] == seg_toks(root, v.last(), true)[0]);
    }
}

/// A path as an expression reads back.
#[verifier::spinoff_prover]
proof fn path_primary(t: Seq<TokAt>, i: int, p: PathExprV)
    requires
        regular(ExprV::Path(p)),
        stands(t, i, path_toks(p)),
        may_follow(ExprV::Path(p), 7, kind(t, i + path_toks(p).len())),
    ensures
        primary(t, i) == got(ExprV::Path(p), i + path_toks(p).len()),
{
    let e = ExprV::Path(p);
    index_reads_back(p);
    path_reads(t, i, p, true);
    segs_first(p.root, p.segments);
    assert(t[i + 0].kind == path_toks(p)[0]);
    assert(path_expr(t, i) == got(e, i + path_toks(p).len())) by {
        reveal(path_expr);
        reveal(path);
    }
    match p.root {
        PathRootV::Identity => {
            reveal(primary);
            reveal(path_expr);
        },
        PathRootV::Name(n) => {
            if p.segments.len() > 0 {
                segs_second(n, p.segments);
                assert(t[i + 1].kind == path_toks(p)[1]);
            }
            assert(kind(t, i + 1) != Tok::LParen);
            assert(word_expr(t, i, n) == path_expr(t, i)) by {
                reveal(word_expr);
                reveal(path_expr);
            }
            reveal(primary);
            reveal(word_expr);
        },
    }
}

/// What binds most tightly reads back.
#[verifier::spinoff_prover]
#[verifier::rlimit(60)]
proof fn primary_reads(t: Seq<TokAt>, i: int, e: ExprV)
    requires
        regular(e),
        level(e) == 7,
        stands(t, i, toks(e)),
        may_follow(e, 7, kind(t, i + toks(e).len())),
    ensures
        primary(t, i) == got(e, i + toks(e).len()),
    decreases e, 1int,
{
    let j = i + toks(e).len();
    first_tok(e);
    assert(t[i + 0].kind == toks(e)[0]);
    starting_words();
    match e {
        ExprV::Path(p) => {
            path_primary(t, i, p);
        },
        ExprV::Lit(l) => {
            reveal(primary);
            reveal(word_expr);
        },
        ExprV::Param(n) => {
            reveal(primary);
        },
        ExprV::Array(v) => {
            stands_parts(t, i, seq![Tok::LBrack] + list_toks(v), seq![Tok::RBrack]);
            stands_parts(t, i, seq![Tok::LBrack], list_toks(v));
            assert(t[i + (1 + list_toks(v).len()) + 0].kind == seq![Tok::RBrack][0]);
            if v.len() > 0 {
                assert(v.take(0) =~= Seq::empty());
                array_reads(t, i + 1, v, 0);
            } else {
                assert(v =~= Seq::empty());
            }
            reveal(primary);
            reveal(array_items);
        },
        ExprV::Object(v) => {
            let k = fields_toks(v);
            stands_parts(t, i, seq![Tok::LBrace] + k, seq![Tok::RBrace]);
            stands_parts(t, i, seq![Tok::LBrace], k);
            assert(t[i + (1 + k.len()) + 0].kind == seq![Tok::RBrace][0]);
            if v.len() > 0 {
                assert(v.take(0) =~= Seq::empty());
                fields_read(t, i + 1, v, 0);
            } else {
                assert(v =~= Seq::empty());
            }
            reveal(primary);
            reveal(object_fields);
        },
        _ => {
            call_reads(t, i, e);
        },
    }
}

/// Calls read back.
#[verifier::spinoff_prover]
#[verifier::rlimit(60)]
proof fn call_reads(t: Seq<TokAt>, i: int, e: ExprV)
    requires
        regular(e),
        e is Reducer || e is Call || e is If,
        stands(t, i, toks(e)),
    ensures
        primary(t, i) == got(e, i + toks(e).len()),
    decreases e, 0int,
{
    let j = i + toks(e).len();
    first_tok(e);
    assert(t[i + 0].kind == toks(e)[0]);
    starting_words();
    match e {
        ExprV::Reducer { op, arg } => {
            reducer_names(op);
            let name = reducer_name(op);
            match arg {
                Some(a) => {
                    let head = seq![Tok::Ident(name), Tok::LParen];
                    stands_parts(t, i, head + toks(*a), seq![Tok::RParen]);
                    stands_parts(t, i, head, toks(*a));
                    assert(t[i + 1].kind == head[1]);
                    assert(t[i + (2 + toks(*a).len()) + 0].kind == seq![Tok::RParen][0]);
                    first_tok(*a);
                    assert(t[i + 2 + 0].kind == toks(*a)[0]);
                    expr_reads(t, i + 2, *a, 0);
                },
                None => {
                    assert(t[i + 1].kind == toks(e)[1]);
                    assert(t[i + 2].kind == toks(e)[2]);
                },
            }
            reveal(primary);
            reveal(word_expr);
            reveal(reducer_call);
            reveal(or_expr);
        },
        ExprV::Call(n, args) => {
            let head = seq![Tok::Ident(n), Tok::LParen];
            stands_parts(t, i, head + list_toks(args), seq![Tok::RParen]);
            stands_parts(t, i, head, list_toks(args));
            assert(t[i + 1].kind == head[1]);
            assert(t[i + (2 + list_toks(args).len()) + 0].kind == seq![Tok::RParen][0]);
            if args.len() > 0 {
                assert(args.take(0) =~= Seq::empty());
                list_reads(t, i + 2, args, 0);
                item_stands(t, i + 2, args, 0);
                regular_item(args, 0);
                first_tok(args[0]);
                assert(t[i + 2 + 0].kind == toks(args[0])[0]);
            } else {
                assert(args =~= Seq::empty());
            }
            reveal(primary);
            reveal(word_expr);
            reveal(call);
            reveal(expr_list);
        },
        ExprV::If { cond, then_branch, else_branch } => {
            let head = seq![Tok::Ident(kw::IF@), Tok::LParen];
            let a = toks(*cond);
            let b = toks(*then_branch);
            let c = toks(*else_branch);
            let comma = seq![Tok::Comma];
            assert(toks(e) == head + a + comma + b + comma + c + seq![Tok::RParen]);
            stands_parts(t, i, head + a + comma + b + comma + c, seq![Tok::RParen]);
            stands_parts(t, i, head + a + comma + b + comma, c);
            stands_parts(t, i, head + a + comma + b, comma);
            stands_parts(t, i, head + a + comma, b);
            stands_parts(t, i, head + a, comma);
            stands_parts(t, i, head, a);
            let k1 = i + 2 + a.len();
            let k2 = k1 + 1 + b.len();
            let k3 = k2 + 1 + c.len();
            assert(t[i + 1].kind == head[1]);
            assert(t[k1 + 0].kind == comma[0]);
            assert(t[k2 + 0].kind == comma[0]);
            assert(t[k3 + 0].kind == seq![Tok::RParen][0]);
            first_tok(*cond);
            first_tok(*then_branch);
            first_tok(*else_branch);
            expr_reads(t, i + 2, *cond, 0);
            expr_reads(t, k1 + 1, *then_branch, 0);
            expr_reads(t, k2 + 1, *else_branch, 0);
            if_reads(t, i, *cond, k1, *then_branch, k2, *else_branch, k3);
        },
        _ => {},
    }
}

proof fn if_reads(
    t: Seq<TokAt>,
    i: int,
    a: ExprV,
    k1: int,
    b: ExprV,
    k2: int,
    c: ExprV,
    k3: int,
)
    requires
        0 <= i,
        i + 2 < k1 < k2 < k3 < t.len(),
        kind(t, i) == Tok::Ident(kw::IF@),
        kind(t, i + 1) == Tok::LParen,
        or_expr(t, i + 2) == got(a, k1),
        kind(t, k1) == Tok::Comma,
        or_expr(t, k1 + 1) == got(b, k2),
        kind(t, k2) == Tok::Comma,
        or_expr(t, k2 + 1) == got(c, k3),
        kind(t, k3) == Tok::RParen,
    ensures
        primary(t, i) == got(
            ExprV::If {
                cond: Box::new(a),
                then_branch: Box::new(b),
                else_branch: Box::new(c),
            },
            k3 + 1,
        ),
{
    starting_words();
    assert(if_end(t, i, a, b, k2 + 1) == got(
        ExprV::If { cond: Box::new(a), then_branch: Box::new(b), else_branch: Box::new(c) },
        k3 + 1,
    )) by {
        reveal(if_end);
        reveal(or_expr);
    }
    assert(if_call(t, i) == if_end(t, i, a, b, k2 + 1)) by {
        reveal(if_call);
        reveal(if_end);
        reveal(or_expr);
    }
    reveal(primary);
    reveal(word_expr);
    reveal(if_call);
}

} // verus!
