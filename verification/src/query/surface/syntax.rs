//! The grammar of the surface language: what a run of tokens stands for.
//!
//! Each function reads one construct from token `i` on. It gives the tree and
//! the token after it, or the error that the construct has.
use vstd::prelude::*;

use super::super::ast::CompareOp;
use super::super::grammar::{function_spec, keyword_of, kw, FunctionSpec};
use super::super::lexer::{char_at, description, Tok, TokAt};
use super::super::numeral::{clamp_u64, magnitude, plain, whole_i64};
use super::super::{qfault, QueryFault};
use super::ast::{
    AggBlockItemV, AggOp, AggregateBlockV, AggregateClauseV, AliasLetV, BinaryOp, ExprV,
    FieldSetDefV, FieldSetItemV, GroupClauseV, JoinClauseV, JoinKind, JsonTypeKind, LitV,
    ObjectFieldV, OrderKeyV, PathExprV, PathRootV, PathSegV, QueryV, SourceClauseV, UnnestClauseV,
};
use crate::text::decimal_text;

verus! {

/// A construct and the token after it, or an error.
pub type Parsed<T> = Result<(T, int), QueryFault>;

/// The token at `i`; the end of input beyond the last one.
pub open spec fn kind(t: Seq<TokAt>, i: int) -> Tok {
    if 0 <= i < t.len() {
        t[i].kind
    } else {
        Tok::Eof
    }
}

/// The word `w` stands at `i`.
pub open spec fn word(t: Seq<TokAt>, i: int, w: Seq<char>) -> bool {
    kind(t, i) == Tok::Ident(w)
}

/// An error at token `i`.
pub open spec fn fail<T>(t: Seq<TokAt>, i: int, message: Seq<char>) -> Parsed<T> {
    Err(qfault(t[i].position, message))
}

/// How many tokens are left.
pub open spec fn rest(t: Seq<TokAt>, i: int) -> nat {
    if 0 <= i < t.len() {
        (t.len() - i) as nat
    } else {
        0
    }
}

/// Token `j` lies beyond token `i`.
pub open spec fn moved(t: Seq<TokAt>, i: int, j: int) -> bool {
    0 <= i < j <= t.len()
}

/// Never reached: each construct consumes a token.
pub open spec fn stuck<T>() -> Parsed<T> {
    Err(qfault(0, Seq::empty()))
}

/// An identifier.
pub open spec fn ident(t: Seq<TokAt>, i: int, message: Seq<char>) -> Parsed<Seq<char>> {
    match kind(t, i) {
        Tok::Ident(s) => Ok((s, i + 1)),
        _ => fail(t, i, message),
    }
}

/// An identifier or a string.
pub open spec fn name(t: Seq<TokAt>, i: int, message: Seq<char>) -> Parsed<Seq<char>> {
    match kind(t, i) {
        Tok::Ident(s) => Ok((s, i + 1)),
        Tok::Str(s) => Ok((s, i + 1)),
        _ => fail(t, i, message),
    }
}

/// The alias after `as`: an identifier that is no keyword.
pub open spec fn alias(t: Seq<TokAt>, i: int) -> Parsed<Seq<char>> {
    match kind(t, i) {
        Tok::Ident(s) => if keyword_of(s) is Some {
            fail(t, i, "alias `"@ + s + "` is a reserved keyword"@)
        } else {
            Ok((s, i + 1))
        },
        _ => fail(t, i, "expected an alias identifier after `as`"@),
    }
}

/// The names of a `fields` set, from `i` on, up to the closing brace.
#[verifier::opaque]
pub open spec fn set_names(t: Seq<TokAt>, acc: Seq<Seq<char>>, i: int) -> Parsed<Seq<Seq<char>>>
    decreases rest(t, i),
{
    if kind(t, i) == Tok::RBrace {
        Ok((acc, i))
    } else {
        match name(t, i, "expected field name in `fields` set"@) {
            Err(e) => Err(e),
            Ok((s, j)) => if kind(t, j) == Tok::Comma {
                set_names(t, acc.push(s), j + 1)
            } else {
                Ok((acc.push(s), j))
            },
        }
    }
}

/// `NAME = { a, b }`, after `fields`.
pub open spec fn field_set_def(t: Seq<TokAt>, i: int) -> Parsed<FieldSetDefV> {
    match ident(t, i, "expected identifier after `fields`"@) {
        Err(e) => Err(e),
        Ok((n, j)) => if kind(t, j) != Tok::Assign {
            fail(t, j, "expected `=` after `fields NAME`"@)
        } else if kind(t, j + 1) != Tok::LBrace {
            fail(t, j + 1, "expected `{` to start a field set"@)
        } else {
            match set_names(t, Seq::empty(), j + 2) {
                Err(e) => Err(e),
                Ok((fields, k)) => if kind(t, k) != Tok::RBrace {
                    fail(t, k, "expected `}` to end `fields` set"@)
                } else if fields.len() == 0 {
                    fail(t, k + 1, "`fields NAME = { ... }` must contain at least one field"@)
                } else {
                    Ok((FieldSetDefV { name: n, fields }, k + 1))
                },
            }
        },
    }
}

/// The `fields` sets at the top of a query.
#[verifier::opaque]
pub open spec fn field_sets(t: Seq<TokAt>, acc: Seq<FieldSetDefV>, i: int) -> Parsed<
    Seq<FieldSetDefV>,
>
    decreases rest(t, i),
{
    if word(t, i, kw::FIELDS@) {
        match field_set_def(t, i + 1) {
            Err(e) => Err(e),
            Ok((d, j)) => if !moved(t, i, j) {
                stuck()
            } else {
                field_sets(t, acc.push(d), j)
            },
        }
    } else {
        Ok((acc, i))
    }
}

/// What stands in brackets: nothing, a whole number or a string.
pub open spec fn bracket(t: Seq<TokAt>, i: int) -> Parsed<PathSegV> {
    match kind(t, i) {
        Tok::RBrack => Ok((PathSegV::Iterate, i + 1)),
        Tok::Number(n) => match whole_i64(n) {
            None => fail(t, i, "array index must be an integer, got "@ + plain(n)),
            Some(x) => if kind(t, i + 1) != Tok::RBrack {
                fail(t, i + 1, "expected `]`"@)
            } else {
                Ok((PathSegV::Index(x), i + 2))
            },
        },
        Tok::Str(s) => if kind(t, i + 1) != Tok::RBrack {
            fail(t, i + 1, "expected `]`"@)
        } else {
            Ok((PathSegV::Field(s), i + 2))
        },
        other => fail(
            t,
            i,
            "unexpected "@ + description(other)
                + " in brackets (expected `]`, an integer index, or a quoted field)"@,
        ),
    }
}

/// `...` stands at `i`.
pub open spec fn spread(t: Seq<TokAt>, i: int) -> bool {
    kind(t, i) == Tok::Dot && kind(t, i + 1) == Tok::Dot && kind(t, i + 2) == Tok::Dot
}

/// `...NAME`.
pub open spec fn spread_item(t: Seq<TokAt>, i: int) -> Parsed<FieldSetItemV> {
    match kind(t, i + 3) {
        Tok::Ident(s) => Ok((FieldSetItemV::Spread(s), i + 4)),
        _ => fail(t, i + 3, "expected name after `...` in field-set"@),
    }
}

/// One item of a field set.
#[verifier::opaque]
pub open spec fn set_item(t: Seq<TokAt>, i: int) -> Parsed<FieldSetItemV>
    decreases rest(t, i), 20int,
{
    if spread(t, i) {
        spread_item(t, i)
    } else {
        match name(t, i, "expected field name in field-set"@) {
            Err(e) => Err(e),
            Ok((n, j)) => if kind(t, i + 1) == Tok::Colon {
                match or_expr(t, i + 2) {
                    Err(e) => Err(e),
                    Ok((v, k)) => Ok((FieldSetItemV::Override(n, v), k)),
                }
            } else {
                Ok((FieldSetItemV::Field(n), i + 1))
            },
        }
    }
}

/// The items of a field set, up to the closing brace.
#[verifier::opaque]
pub open spec fn set_items(t: Seq<TokAt>, acc: Seq<FieldSetItemV>, i: int) -> Parsed<
    Seq<FieldSetItemV>,
>
    decreases rest(t, i), 21int,
{
    if kind(t, i) == Tok::RBrace {
        Ok((acc, i))
    } else {
        match set_item(t, i) {
            Err(e) => Err(e),
            Ok((x, j)) => if kind(t, j) == Tok::Comma {
                if !moved(t, i, j + 1) {
                    stuck()
                } else {
                    set_items(t, acc.push(x), j + 1)
                }
            } else {
                Ok((acc.push(x), j))
            },
        }
    }
}

/// A field set, at its opening brace.
#[verifier::opaque]
pub open spec fn field_set_seg(t: Seq<TokAt>, i: int) -> Parsed<PathSegV>
    decreases rest(t, i), 0int,
{
    if kind(t, i) != Tok::LBrace {
        stuck()
    } else {
        match set_items(t, Seq::empty(), i + 1) {
            Err(e) => Err(e),
            Ok((items, j)) => if kind(t, j) != Tok::RBrace {
                fail(t, j, "expected `}`"@)
            } else if items.len() == 0 {
                fail(t, j + 1, "field-set must contain at least one item"@)
            } else {
                Ok((PathSegV::FieldSet(items), j + 1))
            },
        }
    }
}

/// The segment that may follow a leading dot.
#[verifier::opaque]
pub open spec fn first_seg(t: Seq<TokAt>, i: int, sets: bool) -> Parsed<Option<PathSegV>>
    decreases rest(t, i), 1int,
{
    match kind(t, i) {
        Tok::Ident(s) => Ok((Some(PathSegV::Field(s)), i + 1)),
        Tok::Str(s) => Ok((Some(PathSegV::Field(s)), i + 1)),
        Tok::StarStar => Ok((Some(PathSegV::StarStar), i + 1)),
        Tok::LBrack => match bracket(t, i + 1) {
            Err(e) => Err(e),
            Ok((s, j)) => Ok((Some(s), j)),
        },
        Tok::LBrace => if sets {
            match field_set_seg(t, i) {
                Err(e) => Err(e),
                Ok((s, j)) => Ok((Some(s), j)),
            }
        } else {
            Ok((None, i))
        },
        _ => Ok((None, i)),
    }
}

/// The segment after a further dot.
#[verifier::opaque]
pub open spec fn dot_seg(t: Seq<TokAt>, i: int, sets: bool) -> Parsed<PathSegV>
    decreases rest(t, i), 2int,
{
    match first_seg(t, i, sets) {
        Err(e) => Err(e),
        Ok((Some(s), j)) => Ok((s, j)),
        Ok((None, j)) => fail(t, i, "expected identifier, `[`, `**`, or `{` after `.`"@),
    }
}

/// The segments of a path, after the ones read.
#[verifier::opaque]
pub open spec fn segments(t: Seq<TokAt>, acc: Seq<PathSegV>, i: int, sets: bool) -> Parsed<
    Seq<PathSegV>,
>
    decreases rest(t, i), 3int,
{
    if kind(t, i) == Tok::Dot {
        match dot_seg(t, i + 1, sets) {
            Err(e) => Err(e),
            Ok((s, j)) => if !moved(t, i, j) {
                stuck()
            } else {
                segments(t, acc.push(s), j, sets)
            },
        }
    } else if kind(t, i) == Tok::LBrack {
        match bracket(t, i + 1) {
            Err(e) => Err(e),
            Ok((s, j)) => if !moved(t, i, j) {
                stuck()
            } else {
                segments(t, acc.push(s), j, sets)
            },
        }
    } else {
        Ok((acc, i))
    }
}

/// A path. Field sets may end it where `sets` says so.
#[verifier::opaque]
pub open spec fn path(t: Seq<TokAt>, i: int, sets: bool) -> Parsed<PathExprV>
    decreases rest(t, i), 4int,
{
    match kind(t, i) {
        Tok::Dot => match first_seg(t, i + 1, sets) {
            Err(e) => Err(e),
            Ok((s, j)) => {
                let acc = match s {
                    Some(x) => seq![x],
                    None => Seq::empty(),
                };
                if !moved(t, i, j) {
                    stuck()
                } else {
                    match segments(t, acc, j, sets) {
                        Err(e) => Err(e),
                        Ok((v, k)) => Ok((PathExprV { root: PathRootV::Identity, segments: v }, k)),
                    }
                }
            },
        },
        Tok::Ident(n) => match segments(t, Seq::empty(), i + 1, sets) {
            Err(e) => Err(e),
            Ok((v, k)) => Ok((PathExprV { root: PathRootV::Name(n), segments: v }, k)),
        },
        _ => fail(t, i, "expected path"@),
    }
}

/// The reducer that a word names.
pub open spec fn reducer_of(s: Seq<char>) -> Option<AggOp> {
    if s == kw::SUM@ {
        Some(AggOp::Sum)
    } else if s == kw::COUNT@ {
        Some(AggOp::Count)
    } else if s == kw::AVG@ {
        Some(AggOp::Avg)
    } else if s == kw::MIN@ {
        Some(AggOp::Min)
    } else if s == kw::MAX@ {
        Some(AggOp::Max)
    } else {
        None
    }
}

/// A reducer call, at the reducer's name `s`.
#[verifier::opaque]
pub open spec fn reducer_call(t: Seq<TokAt>, i: int, op: AggOp, s: Seq<char>) -> Parsed<ExprV>
    decreases rest(t, i), 5int,
{
    if kind(t, i + 1) != Tok::LParen {
        fail(t, i + 1, "expected `(` after `"@ + s + "`"@)
    } else if kind(t, i + 2) == Tok::RParen {
        if op != AggOp::Count {
            fail(t, i, "`"@ + s + "` requires an argument"@)
        } else {
            Ok((ExprV::Reducer { op, arg: None }, i + 3))
        }
    } else if !moved(t, i, i + 2) {
        stuck()
    } else {
        match or_expr(t, i + 2) {
            Err(e) => Err(e),
            Ok((x, j)) => if kind(t, j) != Tok::RParen {
                fail(t, j, "expected `)` to close reducer call"@)
            } else {
                Ok((ExprV::Reducer { op, arg: Some(Box::new(x)) }, j + 1))
            },
        }
    }
}

/// One or more expressions, separated by commas.
#[verifier::opaque]
pub open spec fn expr_list(t: Seq<TokAt>, acc: Seq<ExprV>, i: int) -> Parsed<Seq<ExprV>>
    decreases rest(t, i), 22int,
{
    match or_expr(t, i) {
        Err(e) => Err(e),
        Ok((x, j)) => if kind(t, j) == Tok::Comma {
            if !moved(t, i, j + 1) {
                stuck()
            } else {
                expr_list(t, acc.push(x), j + 1)
            }
        } else {
            Ok((acc.push(x), j))
        },
    }
}

/// How many arguments a function takes, in words.
pub open spec fn arity_text(f: FunctionSpec) -> Seq<char> {
    if f.min_args == f.max_args {
        decimal_text(f.min_args as nat)
    } else {
        decimal_text(f.min_args as nat) + " to "@ + decimal_text(f.max_args as nat)
    }
}

/// A function call, at the function's name `s`.
#[verifier::opaque]
pub open spec fn call(t: Seq<TokAt>, i: int, s: Seq<char>, f: FunctionSpec) -> Parsed<ExprV>
    decreases rest(t, i), 5int,
{
    let args: Parsed<Seq<ExprV>> = if kind(t, i + 2) == Tok::RParen {
        Ok((Seq::empty(), i + 2))
    } else if !moved(t, i, i + 2) {
        stuck()
    } else {
        expr_list(t, Seq::empty(), i + 2)
    };
    match args {
        Err(e) => Err(e),
        Ok((v, j)) => if kind(t, j) != Tok::RParen {
            fail(t, j, "expected `)` to close function call"@)
        } else if v.len() < f.min_args || v.len() > f.max_args {
            fail(
                t,
                i,
                "`"@ + s + "` takes "@ + arity_text(f) + " argument(s), got "@ + decimal_text(
                    v.len(),
                ),
            )
        } else {
            Ok((ExprV::Call(s, v), j + 1))
        },
    }
}

/// `if(COND, THEN, ELSE)`, at `if`.
#[verifier::opaque]
pub open spec fn if_call(t: Seq<TokAt>, i: int) -> Parsed<ExprV>
    decreases rest(t, i), 5int,
{
    if kind(t, i + 1) != Tok::LParen {
        fail(t, i + 1, "expected `(` after `if`"@)
    } else if !moved(t, i, i + 2) {
        stuck()
    } else {
        match or_expr(t, i + 2) {
            Err(e) => Err(e),
            Ok((c, j)) => if kind(t, j) != Tok::Comma {
                fail(
                    t,
                    j,
                    "expected `,` after `if` condition — `if` requires three arguments `if(COND, THEN, ELSE)`"@,
                )
            } else if !moved(t, i, j + 1) {
                stuck()
            } else {
                match or_expr(t, j + 1) {
                    Err(e) => Err(e),
                    Ok((a, k)) => if kind(t, k) != Tok::Comma {
                        fail(
                            t,
                            k,
                            "expected `,` after `if` then-branch — `if` requires three arguments `if(COND, THEN, ELSE)`"@,
                        )
                    } else if !moved(t, i, k + 1) {
                        stuck()
                    } else {
                        if_end(t, i, c, a, k + 1)
                    },
                }
            },
        }
    }
}

/// The last branch of `if`, from `k` on; the `if` stands at `i`.
#[verifier::opaque]
pub open spec fn if_end(t: Seq<TokAt>, i: int, c: ExprV, a: ExprV, k: int) -> Parsed<ExprV>
    decreases rest(t, k), 23int,
{
    match or_expr(t, k) {
        Err(e) => Err(e),
        Ok((b, m)) => if kind(t, m) == Tok::Comma {
            fail(t, i, "`if` takes exactly three arguments `if(COND, THEN, ELSE)`"@)
        } else if kind(t, m) != Tok::RParen {
            fail(t, m, "expected `)` to close `if(...)`"@)
        } else {
            Ok(
                (
                    ExprV::If {
                        cond: Box::new(c),
                        then_branch: Box::new(a),
                        else_branch: Box::new(b),
                    },
                    m + 1,
                ),
            )
        },
    }
}

/// `NAME: VALUE [?? DEFAULT]`.
#[verifier::opaque]
pub open spec fn object_field(t: Seq<TokAt>, i: int) -> Parsed<ObjectFieldV>
    decreases rest(t, i), 20int,
{
    match name(t, i, "expected a name identifier"@) {
        Err(e) => Err(e),
        Ok((n, j)) => if kind(t, i + 1) != Tok::Colon {
            fail(t, i + 1, "expected `:` between object-field name and value"@)
        } else {
            match or_expr(t, i + 2) {
                Err(e) => Err(e),
                Ok((value, k)) => if !moved(t, i, k) {
                    stuck()
                } else {
                    match default_clause(t, k) {
                        Err(e) => Err(e),
                        Ok((default, m)) => Ok((ObjectFieldV { name: n, value, default }, m)),
                    }
                },
            }
        },
    }
}

/// An optional `?? EXPR`.
#[verifier::opaque]
pub open spec fn default_clause(t: Seq<TokAt>, i: int) -> Parsed<Option<ExprV>>
    decreases rest(t, i), 0int,
{
    if kind(t, i) == Tok::QuestionQuestion {
        match or_expr(t, i + 1) {
            Err(e) => Err(e),
            Ok((x, j)) => Ok((Some(x), j)),
        }
    } else {
        Ok((None, i))
    }
}

/// An optional condition after the word `w`.
#[verifier::opaque]
pub open spec fn condition(t: Seq<TokAt>, i: int, w: Seq<char>) -> Parsed<Option<ExprV>>
    decreases rest(t, i), 0int,
{
    if word(t, i, w) {
        match or_expr(t, i + 1) {
            Err(e) => Err(e),
            Ok((x, j)) => Ok((Some(x), j)),
        }
    } else {
        Ok((None, i))
    }
}

/// The fields of an object, up to the closing brace.
#[verifier::opaque]
pub open spec fn object_fields(t: Seq<TokAt>, acc: Seq<ObjectFieldV>, i: int) -> Parsed<
    Seq<ObjectFieldV>,
>
    decreases rest(t, i), 21int,
{
    if kind(t, i) == Tok::RBrace {
        Ok((acc, i))
    } else {
        match object_field(t, i) {
            Err(e) => Err(e),
            Ok((f, j)) => if kind(t, j) == Tok::Comma {
                if !moved(t, i, j + 1) {
                    stuck()
                } else {
                    object_fields(t, acc.push(f), j + 1)
                }
            } else {
                Ok((acc.push(f), j))
            },
        }
    }
}

/// The items of an array, up to the closing bracket.
#[verifier::opaque]
pub open spec fn array_items(t: Seq<TokAt>, acc: Seq<ExprV>, i: int) -> Parsed<Seq<ExprV>>
    decreases rest(t, i), 21int,
{
    if kind(t, i) == Tok::RBrack {
        Ok((acc, i))
    } else {
        match or_expr(t, i) {
            Err(e) => Err(e),
            Ok((x, j)) => if kind(t, j) == Tok::Comma {
                if !moved(t, i, j + 1) {
                    stuck()
                } else {
                    array_items(t, acc.push(x), j + 1)
                }
            } else {
                Ok((acc.push(x), j))
            },
        }
    }
}

/// What a parenthesis holds: a query or an expression.
#[verifier::opaque]
pub open spec fn parenthesised(t: Seq<TokAt>, i: int) -> Parsed<ExprV>
    decreases rest(t, i), 5int,
{
    if kind(t, i) != Tok::LParen {
        stuck()
    } else if word(t, i + 1, kw::FROM@) || word(t, i + 1, kw::FIELDS@) {
        match query(t, i + 1) {
            Err(e) => Err(e),
            Ok((q, j)) => if kind(t, j) != Tok::RParen {
                fail(t, j, "expected `)` to close subquery"@)
            } else {
                Ok((ExprV::Subquery(Box::new(q)), j + 1))
            },
        }
    } else {
        match or_expr(t, i + 1) {
            Err(e) => Err(e),
            Ok((x, j)) => if kind(t, j) != Tok::RParen {
                fail(t, j, "expected `)`"@)
            } else {
                Ok((x, j + 1))
            },
        }
    }
}

/// An expression that starts with the word `s`.
#[verifier::opaque]
pub open spec fn word_expr(t: Seq<TokAt>, i: int, s: Seq<char>) -> Parsed<ExprV>
    decreases rest(t, i), 6int,
{
    if s == kw::TRUE@ {
        Ok((ExprV::Lit(LitV::Bool(true)), i + 1))
    } else if s == kw::FALSE@ {
        Ok((ExprV::Lit(LitV::Bool(false)), i + 1))
    } else if s == kw::NULL@ {
        Ok((ExprV::Lit(LitV::Null), i + 1))
    } else if s == kw::IF@ {
        if_call(t, i)
    } else if reducer_of(s) is Some {
        reducer_call(t, i, reducer_of(s)->Some_0, s)
    } else if function_spec(s) is Some && kind(t, i + 1) == Tok::LParen {
        call(t, i, s, function_spec(s)->Some_0)
    } else {
        path_expr(t, i)
    }
}

/// A path as an expression.
#[verifier::opaque]
pub open spec fn path_expr(t: Seq<TokAt>, i: int) -> Parsed<ExprV>
    decreases rest(t, i), 5int,
{
    match path(t, i, true) {
        Err(e) => Err(e),
        Ok((p, j)) => Ok((ExprV::Path(p), j)),
    }
}

/// An operand.
#[verifier::opaque]
pub open spec fn primary(t: Seq<TokAt>, i: int) -> Parsed<ExprV>
    decreases rest(t, i), 7int,
{
    match kind(t, i) {
        Tok::LParen => parenthesised(t, i),
        Tok::LBrace => match object_fields(t, Seq::empty(), i + 1) {
            Err(e) => Err(e),
            Ok((v, j)) => if kind(t, j) != Tok::RBrace {
                fail(t, j, "expected `}` to close object literal"@)
            } else {
                Ok((ExprV::Object(v), j + 1))
            },
        },
        Tok::LBrack => match array_items(t, Seq::empty(), i + 1) {
            Err(e) => Err(e),
            Ok((v, j)) => if kind(t, j) != Tok::RBrack {
                fail(t, j, "expected `]`"@)
            } else {
                Ok((ExprV::Array(v), j + 1))
            },
        },
        Tok::Number(n) => Ok((ExprV::Lit(LitV::Number(plain(n))), i + 1)),
        Tok::Str(s) => Ok((ExprV::Lit(LitV::Str(s)), i + 1)),
        Tok::Param(n) => Ok((ExprV::Param(n), i + 1)),
        Tok::Dot => path_expr(t, i),
        Tok::Ident(s) => word_expr(t, i, s),
        other => fail(t, i, "unexpected "@ + description(other) + " (expected expression)"@),
    }
}

/// An operand, with minus signs in front.
#[verifier::opaque]
pub open spec fn unary(t: Seq<TokAt>, i: int) -> Parsed<ExprV>
    decreases rest(t, i), 8int,
{
    if kind(t, i) == Tok::Minus {
        match unary(t, i + 1) {
            Err(e) => Err(e),
            Ok((x, j)) => Ok((ExprV::Neg(Box::new(x)), j)),
        }
    } else {
        primary(t, i)
    }
}

pub open spec fn product_op(k: Tok) -> Option<BinaryOp> {
    match k {
        Tok::Star => Some(BinaryOp::Mul),
        Tok::Slash => Some(BinaryOp::Div),
        _ => None,
    }
}

pub open spec fn sum_op(k: Tok) -> Option<BinaryOp> {
    match k {
        Tok::Plus => Some(BinaryOp::Add),
        Tok::Minus => Some(BinaryOp::Sub),
        _ => None,
    }
}

#[verifier::opaque]
pub open spec fn product(t: Seq<TokAt>, i: int) -> Parsed<ExprV>
    decreases rest(t, i), 9int,
{
    match unary(t, i) {
        Err(e) => Err(e),
        Ok((x, j)) => if !moved(t, i, j) {
            stuck()
        } else {
            product_from(t, x, j)
        },
    }
}

/// Further factors after `l`.
#[verifier::opaque]
pub open spec fn product_from(t: Seq<TokAt>, l: ExprV, i: int) -> Parsed<ExprV>
    decreases rest(t, i), 0int,
{
    match product_op(kind(t, i)) {
        None => Ok((l, i)),
        Some(op) => match unary(t, i + 1) {
            Err(e) => Err(e),
            Ok((r, j)) => if !moved(t, i, j) {
                stuck()
            } else {
                product_from(t, ExprV::Binary { op, lhs: Box::new(l), rhs: Box::new(r) }, j)
            },
        },
    }
}

#[verifier::opaque]
pub open spec fn sum(t: Seq<TokAt>, i: int) -> Parsed<ExprV>
    decreases rest(t, i), 10int,
{
    match product(t, i) {
        Err(e) => Err(e),
        Ok((x, j)) => if !moved(t, i, j) {
            stuck()
        } else {
            sum_from(t, x, j)
        },
    }
}

/// Further terms after `l`.
#[verifier::opaque]
pub open spec fn sum_from(t: Seq<TokAt>, l: ExprV, i: int) -> Parsed<ExprV>
    decreases rest(t, i), 0int,
{
    match sum_op(kind(t, i)) {
        None => Ok((l, i)),
        Some(op) => match product(t, i + 1) {
            Err(e) => Err(e),
            Ok((r, j)) => if !moved(t, i, j) {
                stuck()
            } else {
                sum_from(t, ExprV::Binary { op, lhs: Box::new(l), rhs: Box::new(r) }, j)
            },
        },
    }
}

pub open spec fn compare_op(k: Tok) -> Option<CompareOp> {
    match k {
        Tok::Eq => Some(CompareOp::Eq),
        Tok::Ne => Some(CompareOp::Ne),
        Tok::Lt => Some(CompareOp::Lt),
        Tok::Le => Some(CompareOp::Le),
        Tok::Gt => Some(CompareOp::Gt),
        Tok::Ge => Some(CompareOp::Ge),
        Tok::Ident(s) => if s == kw::MATCHES@ {
            Some(CompareOp::Matches)
        } else if s == kw::STARTS_WITH@ {
            Some(CompareOp::StartsWith)
        } else if s == kw::ENDS_WITH@ {
            Some(CompareOp::EndsWith)
        } else if s == kw::CONTAINS@ {
            Some(CompareOp::Contains)
        } else {
            None
        },
        _ => None,
    }
}

/// A comparison. A field set on the left makes one of all its fields.
pub open spec fn comparison(l: ExprV, op: CompareOp, r: ExprV) -> ExprV {
    match l {
        ExprV::Path(p) => if p.segments.len() > 0 && p.segments.last() is FieldSet {
            ExprV::FieldSetCompare {
                base: PathExprV { root: p.root, segments: p.segments.drop_last() },
                items: p.segments.last()->FieldSet_0,
                op,
                rhs: Box::new(r),
            }
        } else {
            ExprV::Compare(Box::new(l), op, Box::new(r))
        },
        _ => ExprV::Compare(Box::new(l), op, Box::new(r)),
    }
}

/// A type test, after `is` and `not`.
pub open spec fn type_test(t: Seq<TokAt>, l: ExprV, negated: bool, i: int) -> Parsed<ExprV> {
    match kind(t, i) {
        Tok::Ident(s) => match JsonTypeKind::named(s) {
            Some(kind) => Ok((ExprV::TypeTest { value: Box::new(l), kind, negated }, i + 1)),
            None => fail(t, i, "unknown JSON type `"@ + s + "` after `is`"@),
        },
        _ => fail(t, i, "expected a JSON type name after `is`"@),
    }
}

/// What follows the left side `l` of a comparison.
#[verifier::opaque]
pub open spec fn compare_from(t: Seq<TokAt>, l: ExprV, i: int) -> Parsed<ExprV>
    decreases rest(t, i), 0int,
{
    if word(t, i, kw::EXISTS@) {
        Ok((ExprV::Exists(Box::new(l)), i + 1))
    } else if word(t, i, kw::IS@) {
        if word(t, i + 1, kw::NOT@) {
            type_test(t, l, true, i + 2)
        } else {
            type_test(t, l, false, i + 1)
        }
    } else if word(t, i, kw::IN@) {
        match sum(t, i + 1) {
            Err(e) => Err(e),
            Ok((r, j)) => Ok((ExprV::In(Box::new(l), Box::new(r)), j)),
        }
    } else if word(t, i, kw::NOT@) && word(t, i + 1, kw::IN@) {
        match sum(t, i + 2) {
            Err(e) => Err(e),
            Ok((r, j)) => Ok((ExprV::NotIn(Box::new(l), Box::new(r)), j)),
        }
    } else {
        match compare_op(kind(t, i)) {
            None => Ok((l, i)),
            Some(op) => match sum(t, i + 1) {
                Err(e) => Err(e),
                Ok((r, j)) => Ok((comparison(l, op, r), j)),
            },
        }
    }
}

#[verifier::opaque]
pub open spec fn compare_expr(t: Seq<TokAt>, i: int) -> Parsed<ExprV>
    decreases rest(t, i), 11int,
{
    match sum(t, i) {
        Err(e) => Err(e),
        Ok((l, j)) => if !moved(t, i, j) {
            stuck()
        } else {
            compare_from(t, l, j)
        },
    }
}

#[verifier::opaque]
pub open spec fn not_expr(t: Seq<TokAt>, i: int) -> Parsed<ExprV>
    decreases rest(t, i), 12int,
{
    if word(t, i, kw::NOT@) {
        match not_expr(t, i + 1) {
            Err(e) => Err(e),
            Ok((x, j)) => Ok((ExprV::Not(Box::new(x)), j)),
        }
    } else {
        compare_expr(t, i)
    }
}

#[verifier::opaque]
pub open spec fn and_expr(t: Seq<TokAt>, i: int) -> Parsed<ExprV>
    decreases rest(t, i), 13int,
{
    match not_expr(t, i) {
        Err(e) => Err(e),
        Ok((x, j)) => if !moved(t, i, j) {
            stuck()
        } else {
            and_from(t, x, j)
        },
    }
}

/// Further conjuncts after `l`.
#[verifier::opaque]
pub open spec fn and_from(t: Seq<TokAt>, l: ExprV, i: int) -> Parsed<ExprV>
    decreases rest(t, i), 0int,
{
    if word(t, i, kw::AND@) {
        match not_expr(t, i + 1) {
            Err(e) => Err(e),
            Ok((r, j)) => if !moved(t, i, j) {
                stuck()
            } else {
                and_from(t, ExprV::And(Box::new(l), Box::new(r)), j)
            },
        }
    } else {
        Ok((l, i))
    }
}

/// An expression.
#[verifier::opaque]
pub open spec fn or_expr(t: Seq<TokAt>, i: int) -> Parsed<ExprV>
    decreases rest(t, i), 14int,
{
    match and_expr(t, i) {
        Err(e) => Err(e),
        Ok((x, j)) => if !moved(t, i, j) {
            stuck()
        } else {
            or_from(t, x, j)
        },
    }
}

/// Further disjuncts after `l`.
#[verifier::opaque]
pub open spec fn or_from(t: Seq<TokAt>, l: ExprV, i: int) -> Parsed<ExprV>
    decreases rest(t, i), 0int,
{
    if word(t, i, kw::OR@) {
        match and_expr(t, i + 1) {
            Err(e) => Err(e),
            Ok((r, j)) => if !moved(t, i, j) {
                stuck()
            } else {
                or_from(t, ExprV::Or(Box::new(l), Box::new(r)), j)
            },
        }
    } else {
        Ok((l, i))
    }
}

/// `PATH as ALIAS`, after `from`.
#[verifier::opaque]
pub open spec fn source_clause(t: Seq<TokAt>, i: int) -> Parsed<SourceClauseV>
    decreases rest(t, i), 5int,
{
    match path(t, i, false) {
        Err(e) => Err(e),
        Ok((p, j)) => if !word(t, j, kw::AS@) {
            fail(t, j, "expected `as ALIAS` after `from PATH`"@)
        } else {
            match alias(t, j + 1) {
                Err(e) => Err(e),
                Ok((a, k)) => Ok((SourceClauseV { path: p, alias: a }, k)),
            }
        },
    }
}

/// `PATH as ALIAS on EXPR`, after `join`.
#[verifier::opaque]
pub open spec fn join_clause(t: Seq<TokAt>, i: int, kind: JoinKind) -> Parsed<JoinClauseV>
    decreases rest(t, i), 5int,
{
    match path(t, i, false) {
        Err(e) => Err(e),
        Ok((p, j)) => if !word(t, j, kw::AS@) {
            fail(t, j, "expected `as ALIAS` after `join PATH`"@)
        } else {
            match alias(t, j + 1) {
                Err(e) => Err(e),
                Ok((a, k)) => if !word(t, k, kw::ON@) {
                    fail(t, k, "expected `on LEFT == RIGHT` after `join PATH as ALIAS`"@)
                } else if !moved(t, i, k + 1) {
                    stuck()
                } else {
                    match or_expr(t, k + 1) {
                        Err(e) => Err(e),
                        Ok((on, m)) => Ok((JoinClauseV { path: p, alias: a, on, kind }, m)),
                    }
                },
            }
        },
    }
}

/// Where the path of the join at `i` starts, and the join's kind.
pub open spec fn join_head(t: Seq<TokAt>, i: int) -> Parsed<Option<JoinKind>> {
    if word(t, i, kw::INNER@) {
        if word(t, i + 1, kw::JOIN@) {
            Ok((Some(JoinKind::Inner), i + 2))
        } else {
            fail(t, i + 1, "expected `join` after `inner`"@)
        }
    } else if word(t, i, kw::LEFT@) {
        if word(t, i + 1, kw::JOIN@) {
            Ok((Some(JoinKind::Left), i + 2))
        } else {
            fail(t, i + 1, "expected `join` after `left`"@)
        }
    } else if word(t, i, kw::JOIN@) {
        Ok((Some(JoinKind::Inner), i + 1))
    } else {
        Ok((None, i))
    }
}

#[verifier::opaque]
pub open spec fn joins(t: Seq<TokAt>, acc: Seq<JoinClauseV>, i: int) -> Parsed<Seq<JoinClauseV>>
    decreases rest(t, i), 6int,
{
    match join_head(t, i) {
        Err(e) => Err(e),
        Ok((None, j)) => Ok((acc, i)),
        Ok((Some(kind), j)) => if !moved(t, i, j) {
            stuck()
        } else {
            match join_clause(t, j, kind) {
                Err(e) => Err(e),
                Ok((c, k)) => if !moved(t, i, k) {
                    stuck()
                } else {
                    joins(t, acc.push(c), k)
                },
            }
        },
    }
}

/// `EXPR as ALIAS`, after `unnest`.
#[verifier::opaque]
pub open spec fn unnest_clause(t: Seq<TokAt>, i: int) -> Parsed<UnnestClauseV>
    decreases rest(t, i), 15int,
{
    match or_expr(t, i) {
        Err(e) => Err(e),
        Ok((x, j)) => if !word(t, j, kw::AS@) {
            fail(t, j, "expected `as ALIAS` after `unnest EXPR`"@)
        } else {
            match alias(t, j + 1) {
                Err(e) => Err(e),
                Ok((a, k)) => Ok((UnnestClauseV { expr: x, alias: a }, k)),
            }
        },
    }
}

#[verifier::opaque]
pub open spec fn unnests(t: Seq<TokAt>, acc: Seq<UnnestClauseV>, i: int) -> Parsed<
    Seq<UnnestClauseV>,
>
    decreases rest(t, i), 0int,
{
    if word(t, i, kw::UNNEST@) {
        match unnest_clause(t, i + 1) {
            Err(e) => Err(e),
            Ok((c, k)) => if !moved(t, i, k) {
                stuck()
            } else {
                unnests(t, acc.push(c), k)
            },
        }
    } else {
        Ok((acc, i))
    }
}

/// `NAME = EXPR`, after `let` or a comma.
#[verifier::opaque]
pub open spec fn alias_let(t: Seq<TokAt>, i: int) -> Parsed<AliasLetV>
    decreases rest(t, i), 0int,
{
    match ident(t, i, "expected identifier after `let`"@) {
        Err(e) => Err(e),
        Ok((n, j)) => if kind(t, i + 1) != Tok::Assign {
            fail(t, i + 1, "expected `=` after `let NAME`"@)
        } else {
            match or_expr(t, i + 2) {
                Err(e) => Err(e),
                Ok((x, k)) => Ok((AliasLetV { name: n, expr: x }, k)),
            }
        },
    }
}

/// One or more aliases, separated by commas.
#[verifier::opaque]
pub open spec fn alias_lets(t: Seq<TokAt>, acc: Seq<AliasLetV>, i: int) -> Parsed<Seq<AliasLetV>>
    decreases rest(t, i), 1int,
{
    match alias_let(t, i) {
        Err(e) => Err(e),
        Ok((x, j)) => if kind(t, j) == Tok::Comma {
            if !moved(t, i, j + 1) {
                stuck()
            } else {
                alias_lets(t, acc.push(x), j + 1)
            }
        } else {
            Ok((acc.push(x), j))
        },
    }
}

/// An optional `let` clause.
#[verifier::opaque]
pub open spec fn let_clause(t: Seq<TokAt>, i: int) -> Parsed<Seq<AliasLetV>>
    decreases rest(t, i), 0int,
{
    if word(t, i, kw::LET@) {
        alias_lets(t, Seq::empty(), i + 1)
    } else {
        Ok((Seq::empty(), i))
    }
}

/// `NAME: OUTPUT [where PRED] [?? DEFAULT]`.
#[verifier::opaque]
pub open spec fn agg_item(t: Seq<TokAt>, i: int) -> Parsed<AggBlockItemV>
    decreases rest(t, i), 0int,
{
    match name(t, i, "expected a name identifier"@) {
        Err(e) => Err(e),
        Ok((n, j)) => if kind(t, i + 1) != Tok::Colon {
            fail(t, i + 1, "expected `:` between reduction name and output expression"@)
        } else {
            match or_expr(t, i + 2) {
                Err(e) => Err(e),
                Ok((output, k)) => if !moved(t, i, k) {
                    stuck()
                } else {
                    match condition(t, k, kw::WHERE@) {
                        Err(e) => Err(e),
                        Ok((where_pred, m)) => if !moved(t, i, m) {
                            stuck()
                        } else {
                            match default_clause(t, m) {
                                Err(e) => Err(e),
                                Ok((default, z)) => Ok(
                                    (AggBlockItemV { name: n, output, where_pred, default }, z),
                                ),
                            }
                        },
                    }
                },
            }
        },
    }
}

/// The items of an aggregate block, up to the closing brace.
#[verifier::opaque]
pub open spec fn agg_items(t: Seq<TokAt>, acc: Seq<AggBlockItemV>, i: int) -> Parsed<
    Seq<AggBlockItemV>,
>
    decreases rest(t, i), 1int,
{
    if kind(t, i) == Tok::RBrace {
        Ok((acc, i))
    } else {
        match agg_item(t, i) {
            Err(e) => Err(e),
            Ok((x, j)) => if kind(t, j) == Tok::Comma {
                if !moved(t, i, j + 1) {
                    stuck()
                } else {
                    agg_items(t, acc.push(x), j + 1)
                }
            } else {
                Ok((acc.push(x), j))
            },
        }
    }
}

/// The keys after an aggregate block, and whether they roll up.
#[verifier::opaque]
pub open spec fn group_clause(t: Seq<TokAt>, i: int) -> Parsed<(Seq<ExprV>, bool)>
    decreases rest(t, i), 0int,
{
    if !word(t, i, kw::BY@) {
        Ok(((Seq::empty(), false), i))
    } else if word(t, i + 1, kw::ROLLUP@) {
        if kind(t, i + 2) != Tok::LParen {
            fail(t, i + 2, "expected `(` after `rollup`"@)
        } else {
            match expr_list(t, Seq::empty(), i + 3) {
                Err(e) => Err(e),
                Ok((keys, j)) => if kind(t, j) != Tok::RParen {
                    fail(t, j, "expected `)` to close `rollup(...)`"@)
                } else {
                    Ok(((keys, true), j + 1))
                },
            }
        }
    } else {
        match expr_list(t, Seq::empty(), i + 1) {
            Err(e) => Err(e),
            Ok((keys, j)) => Ok(((keys, false), j)),
        }
    }
}

/// `{ .. } [by ..]`, after `aggregate`.
#[verifier::opaque]
pub open spec fn aggregate_block(t: Seq<TokAt>, i: int) -> Parsed<AggregateBlockV>
    decreases rest(t, i), 0int,
{
    if kind(t, i) != Tok::LBrace {
        fail(t, i, "expected `{` after `aggregate`"@)
    } else {
        match agg_items(t, Seq::empty(), i + 1) {
            Err(e) => Err(e),
            Ok((reductions, j)) => if kind(t, j) != Tok::RBrace {
                fail(t, j, "expected `}` to close aggregate block"@)
            } else if reductions.len() == 0 {
                fail(t, j + 1, "aggregate block must contain at least one reduction"@)
            } else if !moved(t, i, j + 1) {
                stuck()
            } else {
                match group_clause(t, j + 1) {
                    Err(e) => Err(e),
                    Ok(((group_by, rollup), k)) => Ok(
                        (AggregateBlockV { reductions, group_by, rollup }, k),
                    ),
                }
            },
        }
    }
}

/// An optional aggregate clause. A reducer in its place is an error.
#[verifier::opaque]
pub open spec fn aggregate_clause(t: Seq<TokAt>, i: int) -> Parsed<Option<AggregateClauseV>>
    decreases rest(t, i), 0int,
{
    match kind(t, i) {
        Tok::Ident(s) => if s == kw::AGGREGATE@ {
            match aggregate_block(t, i + 1) {
                Err(e) => Err(e),
                Ok((b, j)) => Ok((Some(AggregateClauseV::Block(b)), j)),
            }
        } else if s == kw::COLLECT@ {
            if !word(t, i + 1, kw::BY@) {
                fail(t, i + 1, "expected `by` after `collect`"@)
            } else {
                match or_expr(t, i + 2) {
                    Err(e) => Err(e),
                    Ok((key, j)) => Ok((Some(AggregateClauseV::Group(GroupClauseV { key })), j)),
                }
            }
        } else if reducer_of(s) is Some {
            fail(
                t,
                i,
                "reducer `"@ + s
                    + "` is only valid inside `aggregate { ... }` — write `aggregate { <name>: "@
                    + s + "(<expr>) } [by KEY]` instead"@,
            )
        } else {
            Ok((None, i))
        },
        _ => Ok((None, i)),
    }
}

/// The fields of a `select` block, up to the closing brace.
#[verifier::opaque]
pub open spec fn select_fields(t: Seq<TokAt>, acc: Seq<(Seq<char>, ExprV)>, i: int) -> Parsed<
    Seq<(Seq<char>, ExprV)>,
>
    decreases rest(t, i), 0int,
{
    if kind(t, i) == Tok::RBrace {
        Ok((acc, i))
    } else {
        match name(t, i, "expected field name in `select { ... }`"@) {
            Err(e) => Err(e),
            Ok((n, j)) => if kind(t, i + 1) != Tok::Colon {
                fail(t, i + 1, "expected `:` after field name"@)
            } else {
                match or_expr(t, i + 2) {
                    Err(e) => Err(e),
                    Ok((x, k)) => if kind(t, k) == Tok::Comma {
                        if !moved(t, i, k + 1) {
                            stuck()
                        } else {
                            select_fields(t, acc.push((n, x)), k + 1)
                        }
                    } else {
                        Ok((acc.push((n, x)), k))
                    },
                }
            },
        }
    }
}

/// An optional `select` clause.
#[verifier::opaque]
pub open spec fn select_clause(t: Seq<TokAt>, i: int) -> Parsed<Option<Seq<(Seq<char>, ExprV)>>>
    decreases rest(t, i), 0int,
{
    if !word(t, i, kw::SELECT@) {
        Ok((None, i))
    } else if kind(t, i + 1) != Tok::LBrace {
        fail(t, i + 1, "expected `{` after `select`"@)
    } else {
        match select_fields(t, Seq::empty(), i + 2) {
            Err(e) => Err(e),
            Ok((v, j)) => if kind(t, j) != Tok::RBrace {
                fail(t, j, "expected `}` to close select block"@)
            } else if v.len() == 0 {
                fail(t, j + 1, "`select { ... }` must contain at least one field"@)
            } else {
                Ok((Some(v), j + 1))
            },
        }
    }
}

/// `EXPR [asc|desc]`.
#[verifier::opaque]
pub open spec fn order_key(t: Seq<TokAt>, i: int) -> Parsed<OrderKeyV>
    decreases rest(t, i), 15int,
{
    match or_expr(t, i) {
        Err(e) => Err(e),
        Ok((x, j)) => if word(t, j, kw::DESC@) {
            Ok((OrderKeyV { expr: x, desc: true }, j + 1))
        } else if word(t, j, kw::ASC@) {
            Ok((OrderKeyV { expr: x, desc: false }, j + 1))
        } else {
            Ok((OrderKeyV { expr: x, desc: false }, j))
        },
    }
}

/// One or more sort keys, separated by commas.
#[verifier::opaque]
pub open spec fn order_keys(t: Seq<TokAt>, acc: Seq<OrderKeyV>, i: int) -> Parsed<Seq<OrderKeyV>>
    decreases rest(t, i), 16int,
{
    match order_key(t, i) {
        Err(e) => Err(e),
        Ok((x, j)) => if kind(t, j) == Tok::Comma {
            if !moved(t, i, j + 1) {
                stuck()
            } else {
                order_keys(t, acc.push(x), j + 1)
            }
        } else {
            Ok((acc.push(x), j))
        },
    }
}

/// An optional `order by` clause.
#[verifier::opaque]
pub open spec fn order_clause(t: Seq<TokAt>, i: int) -> Parsed<Seq<OrderKeyV>>
    decreases rest(t, i), 0int,
{
    if !word(t, i, kw::ORDER@) {
        Ok((Seq::empty(), i))
    } else if !word(t, i + 1, kw::BY@) {
        fail(t, i + 1, "expected `by` after `order`"@)
    } else {
        order_keys(t, Seq::empty(), i + 2)
    }
}

/// The number of a `limit` clause: whole and not negative.
pub open spec fn limit_value(s: Seq<char>) -> Option<u64> {
    match magnitude(s) {
        Some(n) => if char_at(s, 0, '-') && n > 0 {
            None
        } else {
            Some(clamp_u64(n))
        },
        None => None,
    }
}

/// An optional `limit` clause.
pub open spec fn limit_clause(t: Seq<TokAt>, i: int) -> Parsed<Option<u64>> {
    if !word(t, i, kw::LIMIT@) {
        Ok((None, i))
    } else {
        match kind(t, i + 1) {
            Tok::Number(s) => match limit_value(s) {
                Some(n) => Ok((Some(n), i + 2)),
                None => fail(t, i + 1, "limit must be a non-negative integer, got "@ + plain(s)),
            },
            _ => fail(t, i + 1, "expected a non-negative integer after `limit`"@),
        }
    }
}

/// A query.
#[verifier::opaque]
pub open spec fn query(t: Seq<TokAt>, i: int) -> Parsed<QueryV>
    decreases rest(t, i), 20int,
{
    match field_sets(t, Seq::empty(), i) {
        Err(e) => Err(e),
        Ok((sets, a)) => if !word(t, a, kw::FROM@) {
            fail(t, a, "every query must start with `from PATH as ALIAS`"@)
        } else if !moved(t, i, a + 1) {
            stuck()
        } else {
            query_rows(t, sets, a + 1)
        },
    }
}

/// The clauses of a query from its source to its condition, and the rest.
#[verifier::opaque]
pub open spec fn query_rows(t: Seq<TokAt>, field_sets: Seq<FieldSetDefV>, i: int) -> Parsed<QueryV>
    decreases rest(t, i), 19int,
{
    match source_clause(t, i) {
        Err(e) => Err(e),
        Ok((source, b)) => if !moved(t, i, b) {
            stuck()
        } else {
            match joins(t, Seq::empty(), b) {
                Err(e) => Err(e),
                Ok((joins, c)) => if !moved(t, i, c) {
                    stuck()
                } else {
                    match unnests(t, Seq::empty(), c) {
                        Err(e) => Err(e),
                        Ok((unnests, d)) => if !moved(t, i, d) {
                            stuck()
                        } else {
                            match condition(t, d, kw::WHERE@) {
                                Err(e) => Err(e),
                                Ok((where_clause, f)) => if !moved(t, i, f) {
                                    stuck()
                                } else {
                                    query_groups(
                                        t,
                                        QueryV {
                                            field_sets,
                                            source,
                                            joins,
                                            unnests,
                                            where_clause,
                                            distinct: false,
                                            alias_lets: Seq::empty(),
                                            aggregate: None,
                                            having: None,
                                            project: None,
                                            order_by: Seq::empty(),
                                            limit: None,
                                        },
                                        f,
                                    )
                                },
                            }
                        },
                    }
                },
            }
        },
    }
}

/// The clauses of a query from its aliases to `having`, and the rest.
#[verifier::opaque]
pub open spec fn query_groups(t: Seq<TokAt>, q: QueryV, i: int) -> Parsed<QueryV>
    decreases rest(t, i), 18int,
{
    match let_clause(t, i) {
        Err(e) => Err(e),
        Ok((alias_lets, a)) => {
            let distinct = word(t, a, kw::DISTINCT@);
            let b = if distinct {
                a + 1
            } else {
                a
            };
            if !(0 <= i <= b <= t.len()) {
                stuck()
            } else {
                match aggregate_clause(t, b) {
                    Err(e) => Err(e),
                    Ok((aggregate, c)) => if !(0 <= i <= c <= t.len()) {
                        stuck()
                    } else {
                        match condition(t, c, kw::HAVING@) {
                            Err(e) => Err(e),
                            Ok((having, d)) => if !(0 <= i <= d <= t.len()) {
                                stuck()
                            } else {
                                query_output(
                                    t,
                                    QueryV { alias_lets, distinct, aggregate, having, ..q },
                                    d,
                                )
                            },
                        }
                    },
                }
            }
        },
    }
}

/// The last clauses of a query.
#[verifier::opaque]
pub open spec fn query_output(t: Seq<TokAt>, q: QueryV, i: int) -> Parsed<QueryV>
    decreases rest(t, i), 17int,
{
    match select_clause(t, i) {
        Err(e) => Err(e),
        Ok((project, a)) => if !(0 <= i <= a <= t.len()) {
            stuck()
        } else {
            match order_clause(t, a) {
                Err(e) => Err(e),
                Ok((order_by, b)) => match limit_clause(t, b) {
                    Err(e) => Err(e),
                    Ok((limit, c)) => Ok((QueryV { project, order_by, limit, ..q }, c)),
                },
            }
        },
    }
}

/// The query that a whole run of tokens stands for.
pub open spec fn whole_query(t: Seq<TokAt>) -> Result<QueryV, QueryFault> {
    match query(t, 0) {
        Err(e) => Err(e),
        Ok((q, j)) => if kind(t, j) != Tok::Eof {
            Err(
                qfault(
                    t[j].position,
                    "unexpected "@ + description(kind(t, j)) + " after end of query"@,
                ),
            )
        } else {
            Ok(q)
        },
    }
}

/// The path that a whole run of tokens stands for.
pub open spec fn whole_path(t: Seq<TokAt>) -> Result<PathExprV, QueryFault> {
    match path(t, 0, false) {
        Err(e) => Err(e),
        Ok((p, j)) => if kind(t, j) != Tok::Eof {
            Err(
                qfault(
                    t[j].position,
                    "unexpected "@ + description(kind(t, j)) + " after end of path"@,
                ),
            )
        } else {
            Ok(p)
        },
    }
}

} // verus!
