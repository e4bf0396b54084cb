//! The recursive-descent parser of the surface language.
//!
//! The clauses of a query stand in this order: `fields`, `from`, `join`,
//! `unnest`, `where`, `let`, `distinct`, `aggregate` or `collect`, `having`,
//! `select`, `order by`, `limit`.
use vstd::prelude::*;

use super::super::ast::{texts, CompareOp};
use super::super::grammar::{function, is_keyword, kw, FunctionSpec};
use super::super::lexer::{
    description, tokenize, tokens_end, tokens_of, toks, wrapped, Tok, TokAt, Token, TokenKind,
};
use super::super::numeral::{parse_whole, plain_numeral, whole_magnitude};
use super::super::{qfault, QueryError, QueryFault};
use super::ast::{
    no_agg_items, no_exprs, no_field_sets, no_items, no_joins, no_lets, no_objects, no_orders,
    no_segs, no_selects, no_unnests, push_agg_item, push_expr, push_field_set, push_item, push_join,
    push_let, push_object, push_order, push_seg, push_select, push_unnest, agg_item_views_len,
    aggregate_view, expr_views_len, item_views_len, select_views_len, path_view, agg_item_views,
    expr_view, expr_views, field_set_views, item_views, join_views, let_views, object_views,
    opt_aggregate_view, opt_expr_view, opt_select_view, order_views, seg_view, seg_views,
    select_views, unnest_views, AggBlockItem, AggBlockItemV, AggOp, AggregateBlock, AggregateClause,
    AliasLet, AliasLetV, BinaryOp, Expr, ExprV, FieldSetDef, FieldSetDefV, FieldSetItem,
    FieldSetItemV, JoinClause, JoinClauseV, JoinKind, JsonTypeKind, Lit, ObjectField, ObjectFieldV,
    OrderKey, OrderKeyV, PathExpr, PathRoot, PathSeg, PathSegV, Query, SourceClause, UnnestClause,
    UnnestClauseV,
};
use super::syntax::{
    if_end, agg_item, agg_items, aggregate_block, aggregate_clause, alias, alias_let, alias_lets,
    and_expr, and_from, arity_text, array_items, bracket, call, compare_expr, compare_from,
    compare_op, comparison, condition, default_clause, dot_seg, expr_list, field_set_def,
    field_set_seg, field_sets, first_seg, group_clause, ident, if_call, join_clause, join_head,
    joins, kind, let_clause, limit_clause, limit_value, name, not_expr, object_field, object_fields,
    or_expr, or_from, order_clause, order_key, order_keys, parenthesised, path, path_expr, primary,
    product, product_from, product_op, query, query_groups, query_output, query_rows, reducer_call,
    reducer_of, segments, select_clause, select_fields, set_item, set_items, set_names,
    source_clause, spread, spread_item, sum, sum_from, sum_op, type_test, unary, unnest_clause,
    unnests, whole_path, whole_query, word, word_expr, Parsed,
};
use crate::text::decimal;

verus! {

/// Parses a query.
pub fn parse(source: &str) -> (r: Result<Query, QueryError>)
    ensures
        match r {
            Ok(q) => parsed_query(source@) == Ok::<_, QueryFault>(q@),
            Err(e) => parsed_query(source@) == Err::<super::ast::QueryV, _>(e@),
        },
{
    let t = match tokenize(source) {
        Ok(t) => t,
        Err(e) => return Err(e),
    };
    proof {
        tokens_end(source@, 0, false);
        reveal(seen);
    }
    let _size: usize = t.len();
    let (q, j) = match parse_query(&t, 0) {
        Ok(x) => x,
        Err(e) => return Err(e),
    };
    if at_end(&t, j) {
        Ok(q)
    } else {
        Err(
            error_at(
                &t,
                j,
                wrapped("unexpected ", described(&t, j).as_str(), " after end of query").as_str(),
            ),
        )
    }
}

/// Parses a path on its own.
pub fn parse_path_only(source: &str) -> (r: Result<PathExpr, QueryError>)
    ensures
        match r {
            Ok(p) => parsed_path(source@) == Ok::<_, QueryFault>(p@),
            Err(e) => parsed_path(source@) == Err::<super::ast::PathExprV, _>(e@),
        },
{
    let t = match tokenize(source) {
        Ok(t) => t,
        Err(e) => return Err(e),
    };
    proof {
        tokens_end(source@, 0, false);
        reveal(seen);
    }
    let _size: usize = t.len();
    let (p, j) = match parse_path(&t, 0, false) {
        Ok(x) => x,
        Err(e) => return Err(e),
    };
    if at_end(&t, j) {
        Ok(p)
    } else {
        Err(
            error_at(
                &t,
                j,
                wrapped("unexpected ", described(&t, j).as_str(), " after end of path").as_str(),
            ),
        )
    }
}

/// The query that a text stands for.
pub open spec fn parsed_query(source: Seq<char>) -> Result<super::ast::QueryV, QueryFault> {
    match tokens_of(source) {
        Err(e) => Err(e),
        Ok(t) => whole_query(t),
    }
}

/// The path that a text stands for.
pub open spec fn parsed_path(source: Seq<char>) -> Result<super::ast::PathExprV, QueryFault> {
    match tokens_of(source) {
        Err(e) => Err(e),
        Ok(t) => whole_path(t),
    }
}

/// The tokens in mathematical form.
#[verifier::opaque]
spec fn seen(t: Seq<Token>) -> Seq<TokAt> {
    toks(t)
}

/// The tokens end with the end of input.
spec fn ready(t: Seq<Token>) -> bool {
    &&& 0 < t.len() <= usize::MAX
    &&& seen(t).len() == t.len()
    &&& seen(t)[t.len() - 1].kind is Eof
}

/// `r` is what the grammar gives, and ends beyond token `i`.
spec fn read<T: View>(
    r: Result<(T, usize), QueryError>,
    want: Parsed<T::V>,
    i: usize,
    n: nat,
) -> bool {
    match r {
        Ok((v, j)) => want == Ok::<(T::V, int), QueryFault>((v@, j as int)) && i < j < n,
        Err(e) => want == Err::<(T::V, int), QueryFault>(e@),
    }
}

/// An error at token `i`.
fn error_at(t: &Vec<Token>, i: usize, message: &str) -> (e: QueryError)
    requires
        i < t@.len(),
    ensures
        e@ == qfault(seen(t@)[i as int].position, message@),
{
    proof {
        reveal(seen);
    }
    QueryError::at(t[i].position, message)
}

/// How an error message names token `i`.
fn described(t: &Vec<Token>, i: usize) -> (s: String)
    requires
        i < t@.len(),
    ensures
        s@ == description(kind(seen(t@), i as int)),
{
    proof {
        reveal(seen);
    }
    t[i].kind.description()
}

/// Whether the word `w` stands at token `i`.
fn at_word(t: &Vec<Token>, i: usize, w: &str) -> (b: bool)
    requires
        i < t@.len(),
    ensures
        b == word(seen(t@), i as int, w@),
{
    match ident_at(t, i) {
        Some(s) => *s.as_str() == *w,
        None => false,
    }
}

/// The identifier at token `i`.
fn ident_at(t: &Vec<Token>, i: usize) -> (r: Option<&String>)
    requires
        i < t@.len(),
    ensures
        match r {
            Some(s) => kind(seen(t@), i as int) == Tok::Ident(s@),
            None => !(kind(seen(t@), i as int) is Ident),
        },
{
    proof {
        reveal(seen);
    }
    match &t[i].kind {
        TokenKind::Ident(s) => Some(s),
        _ => None,
    }
}

/// The string at token `i`.
fn string_at(t: &Vec<Token>, i: usize) -> (r: Option<&String>)
    requires
        i < t@.len(),
    ensures
        match r {
            Some(s) => kind(seen(t@), i as int) == Tok::Str(s@),
            None => !(kind(seen(t@), i as int) is Str),
        },
{
    proof {
        reveal(seen);
    }
    match &t[i].kind {
        TokenKind::Str(s) => Some(s),
        _ => None,
    }
}

/// The number at token `i`.
fn number_at(t: &Vec<Token>, i: usize) -> (r: Option<&String>)
    requires
        i < t@.len(),
    ensures
        match r {
            Some(s) => kind(seen(t@), i as int) == Tok::Number(s@),
            None => !(kind(seen(t@), i as int) is Number),
        },
{
    proof {
        reveal(seen);
    }
    match &t[i].kind {
        TokenKind::Number(s) => Some(s),
        _ => None,
    }
}

/// The parameter at token `i`.
fn param_at(t: &Vec<Token>, i: usize) -> (r: Option<&String>)
    requires
        i < t@.len(),
    ensures
        match r {
            Some(s) => kind(seen(t@), i as int) == Tok::Param(s@),
            None => !(kind(seen(t@), i as int) is Param),
        },
{
    proof {
        reveal(seen);
    }
    match &t[i].kind {
        TokenKind::Param(s) => Some(s),
        _ => None,
    }
}

/// Whether token `i` is a dot.
fn at_dot(t: &Vec<Token>, i: usize) -> (b: bool)
    requires
        i < t@.len(),
    ensures
        b == (kind(seen(t@), i as int) == Tok::Dot),
{
    proof {
        reveal(seen);
    }
    matches!(&t[i].kind, TokenKind::Dot)
}

/// Whether token `i` is an opening bracket.
fn at_open_bracket(t: &Vec<Token>, i: usize) -> (b: bool)
    requires
        i < t@.len(),
    ensures
        b == (kind(seen(t@), i as int) == Tok::LBrack),
{
    proof {
        reveal(seen);
    }
    matches!(&t[i].kind, TokenKind::LBrack)
}

/// Whether token `i` is a closing bracket.
fn at_close_bracket(t: &Vec<Token>, i: usize) -> (b: bool)
    requires
        i < t@.len(),
    ensures
        b == (kind(seen(t@), i as int) == Tok::RBrack),
{
    proof {
        reveal(seen);
    }
    matches!(&t[i].kind, TokenKind::RBrack)
}

/// Whether token `i` is an opening brace.
fn at_open_brace(t: &Vec<Token>, i: usize) -> (b: bool)
    requires
        i < t@.len(),
    ensures
        b == (kind(seen(t@), i as int) == Tok::LBrace),
{
    proof {
        reveal(seen);
    }
    matches!(&t[i].kind, TokenKind::LBrace)
}

/// Whether token `i` is a closing brace.
fn at_close_brace(t: &Vec<Token>, i: usize) -> (b: bool)
    requires
        i < t@.len(),
    ensures
        b == (kind(seen(t@), i as int) == Tok::RBrace),
{
    proof {
        reveal(seen);
    }
    matches!(&t[i].kind, TokenKind::RBrace)
}

/// Whether token `i` is a colon.
fn at_colon(t: &Vec<Token>, i: usize) -> (b: bool)
    requires
        i < t@.len(),
    ensures
        b == (kind(seen(t@), i as int) == Tok::Colon),
{
    proof {
        reveal(seen);
    }
    matches!(&t[i].kind, TokenKind::Colon)
}

/// Whether token `i` is a comma.
fn at_comma(t: &Vec<Token>, i: usize) -> (b: bool)
    requires
        i < t@.len(),
    ensures
        b == (kind(seen(t@), i as int) == Tok::Comma),
{
    proof {
        reveal(seen);
    }
    matches!(&t[i].kind, TokenKind::Comma)
}

/// Whether token `i` is an opening parenthesis.
fn at_open_paren(t: &Vec<Token>, i: usize) -> (b: bool)
    requires
        i < t@.len(),
    ensures
        b == (kind(seen(t@), i as int) == Tok::LParen),
{
    proof {
        reveal(seen);
    }
    matches!(&t[i].kind, TokenKind::LParen)
}

/// Whether token `i` is a closing parenthesis.
fn at_close_paren(t: &Vec<Token>, i: usize) -> (b: bool)
    requires
        i < t@.len(),
    ensures
        b == (kind(seen(t@), i as int) == Tok::RParen),
{
    proof {
        reveal(seen);
    }
    matches!(&t[i].kind, TokenKind::RParen)
}

/// Whether token `i` is a deep wildcard.
fn at_star_star(t: &Vec<Token>, i: usize) -> (b: bool)
    requires
        i < t@.len(),
    ensures
        b == (kind(seen(t@), i as int) == Tok::StarStar),
{
    proof {
        reveal(seen);
    }
    matches!(&t[i].kind, TokenKind::StarStar)
}

/// Whether token `i` is `??`.
fn at_fallback(t: &Vec<Token>, i: usize) -> (b: bool)
    requires
        i < t@.len(),
    ensures
        b == (kind(seen(t@), i as int) == Tok::QuestionQuestion),
{
    proof {
        reveal(seen);
    }
    matches!(&t[i].kind, TokenKind::QuestionQuestion)
}

/// Whether token `i` is `=`.
fn at_assign(t: &Vec<Token>, i: usize) -> (b: bool)
    requires
        i < t@.len(),
    ensures
        b == (kind(seen(t@), i as int) == Tok::Assign),
{
    proof {
        reveal(seen);
    }
    matches!(&t[i].kind, TokenKind::Assign)
}

/// Whether token `i` is a minus sign.
fn at_minus(t: &Vec<Token>, i: usize) -> (b: bool)
    requires
        i < t@.len(),
    ensures
        b == (kind(seen(t@), i as int) == Tok::Minus),
{
    proof {
        reveal(seen);
    }
    matches!(&t[i].kind, TokenKind::Minus)
}

/// Whether token `i` is the end of input.
fn at_end(t: &Vec<Token>, i: usize) -> (b: bool)
    requires
        i < t@.len(),
    ensures
        b == (kind(seen(t@), i as int) == Tok::Eof),
{
    proof {
        reveal(seen);
    }
    matches!(&t[i].kind, TokenKind::Eof)
}

/// The operator between factors at token `i`.
fn product_op_at(t: &Vec<Token>, i: usize) -> (r: Option<BinaryOp>)
    requires
        i < t@.len(),
    ensures
        r == product_op(kind(seen(t@), i as int)),
{
    proof {
        reveal(seen);
    }
    match &t[i].kind {
        TokenKind::Star => Some(BinaryOp::Mul),
        TokenKind::Slash => Some(BinaryOp::Div),
        _ => None,
    }
}

/// The operator between terms at token `i`.
fn sum_op_at(t: &Vec<Token>, i: usize) -> (r: Option<BinaryOp>)
    requires
        i < t@.len(),
    ensures
        r == sum_op(kind(seen(t@), i as int)),
{
    proof {
        reveal(seen);
    }
    match &t[i].kind {
        TokenKind::Plus => Some(BinaryOp::Add),
        TokenKind::Minus => Some(BinaryOp::Sub),
        _ => None,
    }
}

/// The comparison at token `i`.
fn compare_op_at(t: &Vec<Token>, i: usize) -> (r: Option<CompareOp>)
    requires
        i < t@.len(),
    ensures
        r == compare_op(kind(seen(t@), i as int)),
{
    proof {
        reveal(seen);
    }
    comparison_op(&t[i].kind)
}

/// An identifier.
fn parse_ident(t: &Vec<Token>, i: usize, message: &str) -> (r: Result<(String, usize), QueryError>)
    requires
        ready(t@),
        i < t@.len(),
    ensures
        read(r, ident(seen(t@), i as int, message@), i, t@.len()),
{
    match ident_at(t, i) {
        Some(s) => Ok((s.clone(), i + 1)),
        None => Err(error_at(t, i, message)),
    }
}

/// An identifier or a string.
fn parse_name(t: &Vec<Token>, i: usize, message: &str) -> (r: Result<(String, usize), QueryError>)
    requires
        ready(t@),
        i < t@.len(),
    ensures
        read(r, name(seen(t@), i as int, message@), i, t@.len()),
{
    match ident_at(t, i) {
        Some(s) => Ok((s.clone(), i + 1)),
        None => match string_at(t, i) {
            Some(s) => Ok((s.clone(), i + 1)),
            None => Err(error_at(t, i, message)),
        },
    }
}

/// The alias after `as`. Keywords would be ambiguous there.
fn parse_alias(t: &Vec<Token>, i: usize) -> (r: Result<(String, usize), QueryError>)
    requires
        ready(t@),
        i < t@.len(),
    ensures
        read(r, alias(seen(t@), i as int), i, t@.len()),
{
    match ident_at(t, i) {
        Some(s) => if is_keyword(s.as_str()) {
            Err(
                error_at(
                    t,
                    i,
                    wrapped("alias `", s.as_str(), "` is a reserved keyword").as_str(),
                ),
            )
        } else {
            Ok((s.clone(), i + 1))
        },
        None => Err(error_at(t, i, "expected an alias identifier after `as`")),
    }
}

/// The names of a `fields` set.
fn parse_set_names(t: &Vec<Token>, i: usize) -> (r: Result<(Vec<String>, usize), QueryError>)
    requires
        ready(t@),
        i < t@.len(),
    ensures
        match r {
            Ok((v, j)) => set_names(seen(t@), Seq::empty(), i as int) == Ok::<_, QueryFault>(
                (texts(v@), j as int),
            ) && i <= j < t@.len(),
            Err(e) => set_names(seen(t@), Seq::empty(), i as int) == Err::<
                (Seq<Seq<char>>, int),
                _,
            >(e@),
        },
{
    proof {
        reveal(set_names);
    }
    let mut acc: Vec<String> = Vec::new();
    let mut p: usize = i;
    assert(texts(acc@) =~= Seq::<Seq<char>>::empty());
    loop
        invariant
            ready(t@),
            i <= p < t@.len(),
            set_names(seen(t@), Seq::empty(), i as int) == set_names(
                seen(t@),
                texts(acc@),
                p as int,
            ),
        decreases t@.len() - p,
    {
        proof {
            reveal(set_names);
        }
        if at_close_brace(t, p) {
            return Ok((acc, p));
        }
        let (x, j) = match parse_name(t, p, "expected field name in `fields` set") {
            Ok(x) => x,
            Err(e) => return Err(e),
        };
        let ghost before = acc@;
        acc.push(x);
        assert(texts(acc@) =~= texts(before).push(x@));
        if at_comma(t, j) {
            p = j + 1;
        } else {
            return Ok((acc, j));
        }
    }
}

/// `NAME = { a, b }`, after `fields`.
fn parse_field_set_def(t: &Vec<Token>, i: usize) -> (r: Result<(FieldSetDef, usize), QueryError>)
    requires
        ready(t@),
        i < t@.len(),
    ensures
        read(r, field_set_def(seen(t@), i as int), i, t@.len()),
{
    let (n, j) = match parse_ident(t, i, "expected identifier after `fields`") {
        Ok(x) => x,
        Err(e) => return Err(e),
    };
    if !at_assign(t, j) {
        return Err(error_at(t, j, "expected `=` after `fields NAME`"));
    }
    if !at_open_brace(t, j + 1) {
        return Err(error_at(t, j + 1, "expected `{` to start a field set"));
    }
    let (fields, k) = match parse_set_names(t, j + 2) {
        Ok(x) => x,
        Err(e) => return Err(e),
    };
    if !at_close_brace(t, k) {
        return Err(error_at(t, k, "expected `}` to end `fields` set"));
    }
    if fields.len() == 0 {
        return Err(
            error_at(t, k + 1, "`fields NAME = { ... }` must contain at least one field"),
        );
    }
    Ok((FieldSetDef { name: n, fields }, k + 1))
}

/// The `fields` sets at the top of a query.
fn parse_field_sets(t: &Vec<Token>, i: usize) -> (r: Result<(Vec<FieldSetDef>, usize), QueryError>)
    requires
        ready(t@),
        i < t@.len(),
    ensures
        match r {
            Ok((v, j)) => field_sets(seen(t@), Seq::empty(), i as int) == Ok::<_, QueryFault>(
                (field_set_views(v@), j as int),
            ) && i <= j < t@.len(),
            Err(e) => field_sets(seen(t@), Seq::empty(), i as int) == Err::<
                (Seq<FieldSetDefV>, int),
                _,
            >(e@),
        },
{
    proof {
        reveal(field_sets);
    }
    let mut acc: Vec<FieldSetDef> = no_field_sets();
    let mut p: usize = i;
    while at_word(t, p, kw::FIELDS)
        invariant
            ready(t@),
            i <= p < t@.len(),
            field_sets(seen(t@), Seq::empty(), i as int) == field_sets(
                seen(t@),
                field_set_views(acc@),
                p as int,
            ),
        decreases t@.len() - p,
    {
        proof {
            reveal(field_sets);
        }
        let (x, j) = match parse_field_set_def(t, p + 1) {
            Ok(x) => x,
            Err(e) => return Err(e),
        };
        push_field_set(&mut acc, x);
        p = j;
    }
    Ok((acc, p))
}

/// What stands in brackets: nothing, a whole number or a string.
fn parse_bracket_seg(t: &Vec<Token>, i: usize) -> (r: Result<(PathSeg, usize), QueryError>)
    requires
        ready(t@),
        i < t@.len(),
    ensures
        read(r, bracket(seen(t@), i as int), i, t@.len()),
{
    if at_close_bracket(t, i) {
        return Ok((PathSeg::iterate(), i + 1));
    }
    if let Some(n) = number_at(t, i) {
        return match parse_whole(n.as_str()) {
            None => {
                let mut message = "array index must be an integer, got ".to_string();
                message.append(plain_numeral(n.as_str()).as_str());
                Err(error_at(t, i, message.as_str()))
            },
            Some(x) => if !at_close_bracket(t, i + 1) {
                Err(error_at(t, i + 1, "expected `]`"))
            } else {
                Ok((PathSeg::index(x), i + 2))
            },
        };
    }
    if let Some(s) = string_at(t, i) {
        return if !at_close_bracket(t, i + 1) {
            Err(error_at(t, i + 1, "expected `]`"))
        } else {
            Ok((PathSeg::field(s.clone()), i + 2))
        };
    }
    Err(
        error_at(
            t,
            i,
            wrapped(
                "unexpected ",
                described(t, i).as_str(),
                " in brackets (expected `]`, an integer index, or a quoted field)",
            ).as_str(),
        ),
    )
}

/// Whether `...` stands at token `i`.
fn at_spread(t: &Vec<Token>, i: usize) -> (b: bool)
    requires
        ready(t@),
        i < t@.len(),
    ensures
        b == spread(seen(t@), i as int),
{
    at_dot(t, i) && at_dot(t, i + 1) && at_dot(t, i + 2)
}

/// `...NAME`.
fn parse_spread_item(t: &Vec<Token>, i: usize) -> (r: Result<(FieldSetItem, usize), QueryError>)
    requires
        ready(t@),
        i < t@.len(),
        spread(seen(t@), i as int),
    ensures
        read(r, spread_item(seen(t@), i as int), i, t@.len()),
{
    match ident_at(t, i + 3) {
        Some(s) => Ok((FieldSetItem::spread(s.clone()), i + 4)),
        None => Err(error_at(t, i + 3, "expected name after `...` in field-set")),
    }
}

/// One item of a field set.
#[verifier::spinoff_prover]
fn parse_set_item(t: &Vec<Token>, i: usize) -> (r: Result<(FieldSetItem, usize), QueryError>)
    requires
        ready(t@),
        i < t@.len(),
    ensures
        read(r, set_item(seen(t@), i as int), i, t@.len()),
    decreases t@.len() - i, 20int,
{
    proof {
        reveal(set_item);
        reveal(or_expr);
    }
    if at_spread(t, i) {
        return parse_spread_item(t, i);
    }
    let (n, j) = match parse_name(t, i, "expected field name in field-set") {
        Ok(x) => x,
        Err(e) => return Err(e),
    };
    if at_colon(t, j) {
        let (v, k) = match parse_or(t, j + 1) {
            Ok(x) => x,
            Err(e) => return Err(e),
        };
        Ok((FieldSetItem::with_value(n, v), k))
    } else {
        Ok((FieldSetItem::field(n), j))
    }
}

/// The items of a field set.
#[verifier::spinoff_prover]
fn parse_set_items(t: &Vec<Token>, i: usize) -> (r: Result<(Vec<FieldSetItem>, usize), QueryError>)
    requires
        ready(t@),
        i < t@.len(),
    ensures
        match r {
            Ok((v, j)) => set_items(seen(t@), Seq::empty(), i as int) == Ok::<_, QueryFault>(
                (item_views(v@), j as int),
            ) && i <= j < t@.len(),
            Err(e) => set_items(seen(t@), Seq::empty(), i as int) == Err::<
                (Seq<FieldSetItemV>, int),
                _,
            >(e@),
        },
    decreases t@.len() - i, 21int,
{
    proof {
        reveal(set_items);
        reveal(set_item);
    }
    let mut acc: Vec<FieldSetItem> = no_items();
    let mut p: usize = i;
    loop
        invariant
            ready(t@),
            i <= p < t@.len(),
            set_items(seen(t@), Seq::empty(), i as int) == set_items(
                seen(t@),
                item_views(acc@),
                p as int,
            ),
        decreases t@.len() - p,
    {
        proof {
            reveal(set_items);
            reveal(set_item);
        }
        if at_close_brace(t, p) {
            return Ok((acc, p));
        }
        let (x, j) = match parse_set_item(t, p) {
            Ok(x) => x,
            Err(e) => return Err(e),
        };
        push_item(&mut acc, x);
        if at_comma(t, j) {
            p = j + 1;
        } else {
            return Ok((acc, j));
        }
    }
}

/// A field set, at its opening brace.
#[verifier::spinoff_prover]
fn parse_field_set_seg(t: &Vec<Token>, i: usize) -> (r: Result<(PathSeg, usize), QueryError>)
    requires
        ready(t@),
        i < t@.len(),
        kind(seen(t@), i as int) is LBrace,
    ensures
        read(r, field_set_seg(seen(t@), i as int), i, t@.len()),
    decreases t@.len() - i, 0int,
{
    proof {
        reveal(field_set_seg);
        reveal(set_items);
    }
    let (items, j) = match parse_set_items(t, i + 1) {
        Ok(x) => x,
        Err(e) => return Err(e),
    };
    if !at_close_brace(t, j) {
        return Err(error_at(t, j, "expected `}`"));
    }
    proof {
        item_views_len(items@);
    }
    if items.len() == 0 {
        return Err(error_at(t, j + 1, "field-set must contain at least one item"));
    }
    Ok((PathSeg::field_set(items), j + 1))
}

/// The segment that may follow a leading dot.
#[verifier::spinoff_prover]
fn parse_first_identity_seg(t: &Vec<Token>, i: usize, sets: bool) -> (r: Result<
    (Option<PathSeg>, usize),
    QueryError,
>)
    requires
        ready(t@),
        i < t@.len(),
    ensures
        match r {
            Ok((Some(s), j)) => first_seg(seen(t@), i as int, sets) == Ok::<_, QueryFault>(
                (Some(s@), j as int),
            ) && i < j < t@.len(),
            Ok((None, j)) => first_seg(seen(t@), i as int, sets) == Ok::<_, QueryFault>(
                (None::<PathSegV>, j as int),
            ) && i == j,
            Err(e) => first_seg(seen(t@), i as int, sets) == Err::<(Option<PathSegV>, int), _>(e@),
        },
    decreases t@.len() - i, 1int,
{
    proof {
        reveal(first_seg);
        reveal(field_set_seg);
    }
    if let Some(s) = ident_at(t, i) {
        return Ok((Some(PathSeg::field(s.clone())), i + 1));
    }
    if let Some(s) = string_at(t, i) {
        return Ok((Some(PathSeg::field(s.clone())), i + 1));
    }
    if at_star_star(t, i) {
        return Ok((Some(PathSeg::star_star()), i + 1));
    }
    if at_open_bracket(t, i) {
        let (s, j) = match parse_bracket_seg(t, i + 1) {
            Ok(x) => x,
            Err(e) => return Err(e),
        };
        return Ok((Some(s), j));
    }
    if sets && at_open_brace(t, i) {
        let (s, j) = match parse_field_set_seg(t, i) {
            Ok(x) => x,
            Err(e) => return Err(e),
        };
        return Ok((Some(s), j));
    }
    Ok((None, i))
}

/// The segment after a further dot.
#[verifier::spinoff_prover]
fn parse_dot_segment(t: &Vec<Token>, i: usize, sets: bool) -> (r: Result<(PathSeg, usize), QueryError>)
    requires
        ready(t@),
        i < t@.len(),
    ensures
        read(r, dot_seg(seen(t@), i as int, sets), i, t@.len()),
    decreases t@.len() - i, 2int,
{
    proof {
        reveal(dot_seg);
        reveal(first_seg);
    }
    let (s, j) = match parse_first_identity_seg(t, i, sets) {
        Ok(x) => x,
        Err(e) => return Err(e),
    };
    match s {
        Some(s) => Ok((s, j)),
        None => Err(error_at(t, i, "expected identifier, `[`, `**`, or `{` after `.`")),
    }
}

/// The segments of a path, after those in `first`.
#[verifier::spinoff_prover]
fn parse_segments(t: &Vec<Token>, i: usize, first: Vec<PathSeg>, sets: bool) -> (r: Result<
    (Vec<PathSeg>, usize),
    QueryError,
>)
    requires
        ready(t@),
        i < t@.len(),
    ensures
        match r {
            Ok((v, j)) => segments(seen(t@), seg_views(first@), i as int, sets) == Ok::<
                _,
                QueryFault,
            >((seg_views(v@), j as int)) && i <= j < t@.len(),
            Err(e) => segments(seen(t@), seg_views(first@), i as int, sets) == Err::<
                (Seq<PathSegV>, int),
                _,
            >(e@),
        },
    decreases t@.len() - i, 3int,
{
    proof {
        reveal(segments);
        reveal(dot_seg);
    }
    let ghost start = seg_views(first@);
    let mut acc: Vec<PathSeg> = first;
    let mut p: usize = i;
    loop
        invariant
            ready(t@),
            i <= p < t@.len(),
            start == seg_views(first@),
            segments(seen(t@), start, i as int, sets) == segments(
                seen(t@),
                seg_views(acc@),
                p as int,
                sets,
            ),
        decreases t@.len() - p,
    {
        proof {
            reveal(segments);
            reveal(dot_seg);
        }
        if at_dot(t, p) {
            let (s, j) = match parse_dot_segment(t, p + 1, sets) {
                Ok(x) => x,
                Err(e) => return Err(e),
            };
            push_seg(&mut acc, s);
            p = j;
        } else if at_open_bracket(t, p) {
            let (s, j) = match parse_bracket_seg(t, p + 1) {
                Ok(x) => x,
                Err(e) => return Err(e),
            };
            push_seg(&mut acc, s);
            p = j;
        } else {
            return Ok((acc, p));
        }
    }
}

/// A path. Field sets may end it where `sets` says so.
#[verifier::spinoff_prover]
fn parse_path(t: &Vec<Token>, i: usize, sets: bool) -> (r: Result<(PathExpr, usize), QueryError>)
    requires
        ready(t@),
        i < t@.len(),
    ensures
        read(r, path(seen(t@), i as int, sets), i, t@.len()),
    decreases t@.len() - i, 4int,
{
    proof {
        reveal(path);
        reveal(first_seg);
        reveal(segments);
    }
    if at_dot(t, i) {
        let (first, j) = match parse_first_identity_seg(t, i + 1, sets) {
            Ok(x) => x,
            Err(e) => return Err(e),
        };
        let mut acc: Vec<PathSeg> = no_segs();
        if let Some(s) = first {
            push_seg(&mut acc, s);
            assert(seg_views(acc@) =~= seq![s@]);
        }
        let (v, k) = match parse_segments(t, j, acc, sets) {
            Ok(x) => x,
            Err(e) => return Err(e),
        };
        return Ok((PathExpr::new(PathRoot::Identity, v), k));
    }
    match ident_at(t, i) {
        Some(n) => {
            let acc: Vec<PathSeg> = no_segs();
            let (v, k) = match parse_segments(t, i + 1, acc, sets) {
                Ok(x) => x,
                Err(e) => return Err(e),
            };
            Ok((PathExpr::new(PathRoot::Name(n.clone()), v), k))
        },
        None => Err(error_at(t, i, "expected path")),
    }
}

/// The reducer that a word names.
fn reducer(s: &str) -> (r: Option<AggOp>)
    ensures
        r == reducer_of(s@),
{
    if *s == *kw::SUM {
        Some(AggOp::Sum)
    } else if *s == *kw::COUNT {
        Some(AggOp::Count)
    } else if *s == *kw::AVG {
        Some(AggOp::Avg)
    } else if *s == *kw::MIN {
        Some(AggOp::Min)
    } else if *s == *kw::MAX {
        Some(AggOp::Max)
    } else {
        None
    }
}

/// A reducer call, at the reducer's name.
#[verifier::spinoff_prover]
fn parse_reducer_call(t: &Vec<Token>, i: usize, op: AggOp, s: &str) -> (r: Result<(Expr, usize), QueryError>)
    requires
        ready(t@),
        i < t@.len(),
        !(kind(seen(t@), i as int) is Eof),
    ensures
        read(r, reducer_call(seen(t@), i as int, op, s@), i, t@.len()),
    decreases t@.len() - i, 5int,
{
    proof {
        reveal(reducer_call);
        reveal(or_expr);
    }
    if !at_open_paren(t, i + 1) {
        return Err(error_at(t, i + 1, wrapped("expected `(` after `", s, "`").as_str()));
    }
    if at_close_paren(t, i + 2) {
        if !matches!(op, AggOp::Count) {
            return Err(error_at(t, i, wrapped("`", s, "` requires an argument").as_str()));
        }
        return Ok((Expr::count_all(op), i + 3));
    }
    let (x, j) = match parse_or(t, i + 2) {
        Ok(x) => x,
        Err(e) => return Err(e),
    };
    if !at_close_paren(t, j) {
        return Err(error_at(t, j, "expected `)` to close reducer call"));
    }
    Ok((Expr::reducer(op, x), j + 1))
}

/// One or more expressions, separated by commas.
#[verifier::spinoff_prover]
fn parse_expr_list(t: &Vec<Token>, i: usize) -> (r: Result<(Vec<Expr>, usize), QueryError>)
    requires
        ready(t@),
        i < t@.len(),
    ensures
        match r {
            Ok((v, j)) => expr_list(seen(t@), Seq::empty(), i as int) == Ok::<_, QueryFault>(
                (expr_views(v@), j as int),
            ) && i < j < t@.len(),
            Err(e) => expr_list(seen(t@), Seq::empty(), i as int) == Err::<
                (Seq<ExprV>, int),
                _,
            >(e@),
        },
    decreases t@.len() - i, 22int,
{
    proof {
        reveal(expr_list);
        reveal(or_expr);
    }
    let mut acc: Vec<Expr> = no_exprs();
    let mut p: usize = i;
    loop
        invariant
            ready(t@),
            i <= p < t@.len(),
            expr_list(seen(t@), Seq::empty(), i as int) == expr_list(
                seen(t@),
                expr_views(acc@),
                p as int,
            ),
        decreases t@.len() - p,
    {
        proof {
            reveal(expr_list);
            reveal(or_expr);
        }
        let (x, j) = match parse_or(t, p) {
            Ok(x) => x,
            Err(e) => return Err(e),
        };
        push_expr(&mut acc, x);
        if at_comma(t, j) {
            p = j + 1;
        } else {
            return Ok((acc, j));
        }
    }
}

/// How many arguments a function takes, in words.
fn arity_string(f: FunctionSpec) -> (s: String)
    ensures
        s@ == arity_text(f),
{
    if f.min_args == f.max_args {
        decimal(f.min_args as u64)
    } else {
        wrapped(
            decimal(f.min_args as u64).as_str(),
            " to ",
            decimal(f.max_args as u64).as_str(),
        )
    }
}

/// A function call, at the function's name.
#[verifier::spinoff_prover]
fn parse_call(t: &Vec<Token>, i: usize, s: &str, f: FunctionSpec) -> (r: Result<(Expr, usize), QueryError>)
    requires
        ready(t@),
        i < t@.len(),
        !(kind(seen(t@), i as int) is Eof),
        kind(seen(t@), i + 1) is LParen,
    ensures
        read(r, call(seen(t@), i as int, s@, f), i, t@.len()),
    decreases t@.len() - i, 5int,
{
    proof {
        reveal(call);
        reveal(expr_list);
    }
    let args: Vec<Expr>;
    let j: usize;
    if at_close_paren(t, i + 2) {
        args = no_exprs();
        j = i + 2;
    } else {
        let (v, k) = match parse_expr_list(t, i + 2) {
            Ok(x) => x,
            Err(e) => return Err(e),
        };
        args = v;
        j = k;
    }
    if !at_close_paren(t, j) {
        return Err(error_at(t, j, "expected `)` to close function call"));
    }
    proof {
        expr_views_len(args@);
    }
    if args.len() < f.min_args || args.len() > f.max_args {
        let mut message = wrapped("`", s, "` takes ");
        message.append(arity_string(f).as_str());
        message.append(" argument(s), got ");
        message.append(decimal(args.len() as u64).as_str());
        return Err(error_at(t, i, message.as_str()));
    }
    Ok((Expr::call(s.to_string(), args), j + 1))
}

/// `if(COND, THEN, ELSE)`, at `if`.
#[verifier::spinoff_prover]
fn parse_if(t: &Vec<Token>, i: usize) -> (r: Result<(Expr, usize), QueryError>)
    requires
        ready(t@),
        i < t@.len(),
        !(kind(seen(t@), i as int) is Eof),
    ensures
        read(r, if_call(seen(t@), i as int), i, t@.len()),
    decreases t@.len() - i, 5int,
{
    proof {
        reveal(if_call);
        reveal(if_end);
        reveal(or_expr);
    }
    if !at_open_paren(t, i + 1) {
        return Err(error_at(t, i + 1, "expected `(` after `if`"));
    }
    let (c, j) = match parse_or(t, i + 2) {
        Ok(x) => x,
        Err(e) => return Err(e),
    };
    if !at_comma(t, j) {
        return Err(
            error_at(
                t,
                j,
                "expected `,` after `if` condition — `if` requires three arguments `if(COND, THEN, ELSE)`",
            ),
        );
    }
    let (a, k) = match parse_or(t, j + 1) {
        Ok(x) => x,
        Err(e) => return Err(e),
    };
    if !at_comma(t, k) {
        return Err(
            error_at(
                t,
                k,
                "expected `,` after `if` then-branch — `if` requires three arguments `if(COND, THEN, ELSE)`",
            ),
        );
    }
    let (b, m) = match parse_or(t, k + 1) {
        Ok(x) => x,
        Err(e) => return Err(e),
    };
    if at_comma(t, m) {
        return Err(
            error_at(t, i, "`if` takes exactly three arguments `if(COND, THEN, ELSE)`"),
        );
    }
    if !at_close_paren(t, m) {
        return Err(error_at(t, m, "expected `)` to close `if(...)`"));
    }
    Ok(
        (
            Expr::if_of(c, a, b),
            m + 1,
        ),
    )
}

/// An optional `?? EXPR`.
#[verifier::spinoff_prover]
fn parse_default(t: &Vec<Token>, i: usize) -> (r: Result<(Option<Expr>, usize), QueryError>)
    requires
        ready(t@),
        i < t@.len(),
    ensures
        match r {
            Ok((v, j)) => default_clause(seen(t@), i as int) == Ok::<_, QueryFault>(
                (opt_expr_view(v), j as int),
            ) && i <= j < t@.len(),
            Err(e) => default_clause(seen(t@), i as int) == Err::<(Option<ExprV>, int), _>(e@),
        },
    decreases t@.len() - i, 0int,
{
    proof {
        reveal(opt_expr_view);
        reveal(expr_view);
        reveal(default_clause);
        reveal(or_expr);
    }
    if at_fallback(t, i) {
        let (x, j) = match parse_or(t, i + 1) {
            Ok(x) => x,
            Err(e) => return Err(e),
        };
        Ok((Some(x), j))
    } else {
        Ok((None, i))
    }
}

/// An optional condition after the word `w`.
#[verifier::spinoff_prover]
fn parse_condition(t: &Vec<Token>, i: usize, w: &str) -> (r: Result<(Option<Expr>, usize), QueryError>)
    requires
        ready(t@),
        i < t@.len(),
    ensures
        match r {
            Ok((v, j)) => condition(seen(t@), i as int, w@) == Ok::<_, QueryFault>(
                (opt_expr_view(v), j as int),
            ) && i <= j < t@.len(),
            Err(e) => condition(seen(t@), i as int, w@) == Err::<(Option<ExprV>, int), _>(e@),
        },
    decreases t@.len() - i, 0int,
{
    proof {
        reveal(opt_expr_view);
        reveal(expr_view);
        reveal(condition);
        reveal(or_expr);
    }
    if at_word(t, i, w) {
        let (x, j) = match parse_or(t, i + 1) {
            Ok(x) => x,
            Err(e) => return Err(e),
        };
        Ok((Some(x), j))
    } else {
        Ok((None, i))
    }
}

/// `NAME: VALUE [?? DEFAULT]`.
#[verifier::spinoff_prover]
fn parse_object_field(t: &Vec<Token>, i: usize) -> (r: Result<(ObjectField, usize), QueryError>)
    requires
        ready(t@),
        i < t@.len(),
    ensures
        read(r, object_field(seen(t@), i as int), i, t@.len()),
    decreases t@.len() - i, 20int,
{
    proof {
        reveal(object_field);
        reveal(default_clause);
        reveal(or_expr);
    }
    let (n, j) = match parse_name(t, i, "expected a name identifier") {
        Ok(x) => x,
        Err(e) => return Err(e),
    };
    if !at_colon(t, j) {
        return Err(error_at(t, j, "expected `:` between object-field name and value"));
    }
    let (value, k) = match parse_or(t, j + 1) {
        Ok(x) => x,
        Err(e) => return Err(e),
    };
    let (default, m) = match parse_default(t, k) {
        Ok(x) => x,
        Err(e) => return Err(e),
    };
    Ok((ObjectField::new(n, value, default), m))
}

/// The fields of an object.
#[verifier::spinoff_prover]
fn parse_object_fields(t: &Vec<Token>, i: usize) -> (r: Result<(Vec<ObjectField>, usize), QueryError>)
    requires
        ready(t@),
        i < t@.len(),
    ensures
        match r {
            Ok((v, j)) => object_fields(seen(t@), Seq::empty(), i as int) == Ok::<_, QueryFault>(
                (object_views(v@), j as int),
            ) && i <= j < t@.len(),
            Err(e) => object_fields(seen(t@), Seq::empty(), i as int) == Err::<
                (Seq<ObjectFieldV>, int),
                _,
            >(e@),
        },
    decreases t@.len() - i, 21int,
{
    proof {
        reveal(object_fields);
        reveal(object_field);
    }
    let mut acc: Vec<ObjectField> = no_objects();
    let mut p: usize = i;
    loop
        invariant
            ready(t@),
            i <= p < t@.len(),
            object_fields(seen(t@), Seq::empty(), i as int) == object_fields(
                seen(t@),
                object_views(acc@),
                p as int,
            ),
        decreases t@.len() - p,
    {
        proof {
            reveal(object_fields);
            reveal(object_field);
        }
        if at_close_brace(t, p) {
            return Ok((acc, p));
        }
        let (x, j) = match parse_object_field(t, p) {
            Ok(x) => x,
            Err(e) => return Err(e),
        };
        push_object(&mut acc, x);
        if at_comma(t, j) {
            p = j + 1;
        } else {
            return Ok((acc, j));
        }
    }
}

/// The items of an array.
#[verifier::spinoff_prover]
fn parse_array_items(t: &Vec<Token>, i: usize) -> (r: Result<(Vec<Expr>, usize), QueryError>)
    requires
        ready(t@),
        i < t@.len(),
    ensures
        match r {
            Ok((v, j)) => array_items(seen(t@), Seq::empty(), i as int) == Ok::<_, QueryFault>(
                (expr_views(v@), j as int),
            ) && i <= j < t@.len(),
            Err(e) => array_items(seen(t@), Seq::empty(), i as int) == Err::<
                (Seq<ExprV>, int),
                _,
            >(e@),
        },
    decreases t@.len() - i, 21int,
{
    proof {
        reveal(array_items);
        reveal(or_expr);
    }
    let mut acc: Vec<Expr> = no_exprs();
    let mut p: usize = i;
    loop
        invariant
            ready(t@),
            i <= p < t@.len(),
            array_items(seen(t@), Seq::empty(), i as int) == array_items(
                seen(t@),
                expr_views(acc@),
                p as int,
            ),
        decreases t@.len() - p,
    {
        proof {
            reveal(array_items);
            reveal(or_expr);
        }
        if at_close_bracket(t, p) {
            return Ok((acc, p));
        }
        let (x, j) = match parse_or(t, p) {
            Ok(x) => x,
            Err(e) => return Err(e),
        };
        push_expr(&mut acc, x);
        if at_comma(t, j) {
            p = j + 1;
        } else {
            return Ok((acc, j));
        }
    }
}

/// What a parenthesis holds: a query or an expression.
#[verifier::spinoff_prover]
fn parse_parenthesised(t: &Vec<Token>, i: usize) -> (r: Result<(Expr, usize), QueryError>)
    requires
        ready(t@),
        i < t@.len(),
        kind(seen(t@), i as int) is LParen,
    ensures
        read(r, parenthesised(seen(t@), i as int), i, t@.len()),
    decreases t@.len() - i, 5int,
{
    proof {
        reveal(parenthesised);
        reveal(or_expr);
        reveal(query);
    }
    if at_word(t, i + 1, kw::FROM) || at_word(t, i + 1, kw::FIELDS) {
        let (q, j) = match parse_query(t, i + 1) {
            Ok(x) => x,
            Err(e) => return Err(e),
        };
        if !at_close_paren(t, j) {
            return Err(error_at(t, j, "expected `)` to close subquery"));
        }
        Ok((Expr::subquery(q), j + 1))
    } else {
        let (x, j) = match parse_or(t, i + 1) {
            Ok(x) => x,
            Err(e) => return Err(e),
        };
        if !at_close_paren(t, j) {
            return Err(error_at(t, j, "expected `)`"));
        }
        Ok((x, j + 1))
    }
}

/// An expression that starts with the word `s`.
#[verifier::spinoff_prover]
fn parse_word(t: &Vec<Token>, i: usize, s: &str) -> (r: Result<(Expr, usize), QueryError>)
    requires
        ready(t@),
        i < t@.len(),
        !(kind(seen(t@), i as int) is Eof),
    ensures
        read(r, word_expr(seen(t@), i as int, s@), i, t@.len()),
    decreases t@.len() - i, 6int,
{
    proof {
        reveal(word_expr);
        reveal(reducer_call);
        reveal(call);
        reveal(if_call);
        reveal(path_expr);
    }
    if *s == *kw::TRUE {
        Ok((Expr::lit(Lit::Bool(true)), i + 1))
    } else if *s == *kw::FALSE {
        Ok((Expr::lit(Lit::Bool(false)), i + 1))
    } else if *s == *kw::NULL {
        Ok((Expr::lit(Lit::Null), i + 1))
    } else if *s == *kw::IF {
        parse_if(t, i)
    } else {
        match reducer(s) {
            Some(op) => parse_reducer_call(t, i, op, s),
            None => match function(s) {
                Some(f) => if at_open_paren(t, i + 1) {
                    parse_call(t, i, s, f)
                } else {
                    parse_path_expr(t, i)
                },
                None => parse_path_expr(t, i),
            },
        }
    }
}

/// A path as an expression.
#[verifier::spinoff_prover]
fn parse_path_expr(t: &Vec<Token>, i: usize) -> (r: Result<(Expr, usize), QueryError>)
    requires
        ready(t@),
        i < t@.len(),
    ensures
        read(r, path_expr(seen(t@), i as int), i, t@.len()),
    decreases t@.len() - i, 5int,
{
    proof {
        reveal(path_expr);
        reveal(path);
    }
    let (p, j) = match parse_path(t, i, true) {
        Ok(x) => x,
        Err(e) => return Err(e),
    };
    Ok((Expr::path(p), j))
}

/// An operand.
#[verifier::spinoff_prover]
fn parse_primary(t: &Vec<Token>, i: usize) -> (r: Result<(Expr, usize), QueryError>)
    requires
        ready(t@),
        i < t@.len(),
    ensures
        read(r, primary(seen(t@), i as int), i, t@.len()),
    decreases t@.len() - i, 7int,
{
    proof {
        reveal(primary);
        reveal(object_fields);
        reveal(array_items);
        reveal(parenthesised);
        reveal(word_expr);
        reveal(path_expr);
    }
    if let Some(s) = ident_at(t, i) {
        return parse_word(t, i, s.as_str());
    }
    if at_dot(t, i) {
        return parse_path_expr(t, i);
    }
    if let Some(n) = number_at(t, i) {
        return Ok((Expr::lit(Lit::Number(plain_numeral(n.as_str()))), i + 1));
    }
    if let Some(s) = string_at(t, i) {
        return Ok((Expr::lit(Lit::Str(s.clone())), i + 1));
    }
    if let Some(n) = param_at(t, i) {
        return Ok((Expr::param(n.clone()), i + 1));
    }
    if at_open_paren(t, i) {
        return parse_parenthesised(t, i);
    }
    if at_open_brace(t, i) {
        let (v, j) = match parse_object_fields(t, i + 1) {
            Ok(x) => x,
            Err(e) => return Err(e),
        };
        if !at_close_brace(t, j) {
            return Err(error_at(t, j, "expected `}` to close object literal"));
        }
        return Ok((Expr::object(v), j + 1));
    }
    if at_open_bracket(t, i) {
        let (v, j) = match parse_array_items(t, i + 1) {
            Ok(x) => x,
            Err(e) => return Err(e),
        };
        if !at_close_bracket(t, j) {
            return Err(error_at(t, j, "expected `]`"));
        }
        return Ok((Expr::array(v), j + 1));
    }
    Err(
        error_at(
            t,
            i,
            wrapped("unexpected ", described(t, i).as_str(), " (expected expression)").as_str(),
        ),
    )
}

/// An operand, with minus signs in front.
#[verifier::spinoff_prover]
fn parse_unary(t: &Vec<Token>, i: usize) -> (r: Result<(Expr, usize), QueryError>)
    requires
        ready(t@),
        i < t@.len(),
    ensures
        read(r, unary(seen(t@), i as int), i, t@.len()),
    decreases t@.len() - i, 8int,
{
    proof {
        reveal(unary);
        reveal(primary);
    }
    if at_minus(t, i) {
        let (x, j) = match parse_unary(t, i + 1) {
            Ok(x) => x,
            Err(e) => return Err(e),
        };
        Ok((Expr::neg(x), j))
    } else {
        parse_primary(t, i)
    }
}

/// Factors.
#[verifier::spinoff_prover]
fn parse_multiplicative(t: &Vec<Token>, i: usize) -> (r: Result<(Expr, usize), QueryError>)
    requires
        ready(t@),
        i < t@.len(),
    ensures
        read(r, product(seen(t@), i as int), i, t@.len()),
    decreases t@.len() - i, 9int,
{
    proof {
        reveal(product);
        reveal(unary);
        reveal(product_from);
    }
    let (first, next) = match parse_unary(t, i) {
        Ok(x) => x,
        Err(e) => return Err(e),
    };
    let mut left: Expr = first;
    let mut p: usize = next;
    loop
        invariant
            ready(t@),
            i < p < t@.len(),
            product(seen(t@), i as int) == product_from(seen(t@), left@, p as int),
        decreases t@.len() - p,
    {
        proof {
            reveal(product_from);
            reveal(unary);
        }
        let op = match product_op_at(t, p) {
            Some(op) => op,
            None => return Ok((left, p)),
        };
        let (right, j) = match parse_unary(t, p + 1) {
            Ok(x) => x,
            Err(e) => return Err(e),
        };
        left = Expr::binary(op, left, right);
        p = j;
    }
}

/// Terms.
#[verifier::spinoff_prover]
fn parse_additive(t: &Vec<Token>, i: usize) -> (r: Result<(Expr, usize), QueryError>)
    requires
        ready(t@),
        i < t@.len(),
    ensures
        read(r, sum(seen(t@), i as int), i, t@.len()),
    decreases t@.len() - i, 10int,
{
    proof {
        reveal(sum);
        reveal(product);
        reveal(sum_from);
    }
    let (first, next) = match parse_multiplicative(t, i) {
        Ok(x) => x,
        Err(e) => return Err(e),
    };
    let mut left: Expr = first;
    let mut p: usize = next;
    loop
        invariant
            ready(t@),
            i < p < t@.len(),
            sum(seen(t@), i as int) == sum_from(seen(t@), left@, p as int),
        decreases t@.len() - p,
    {
        proof {
            reveal(sum_from);
            reveal(product);
        }
        let op = match sum_op_at(t, p) {
            Some(op) => op,
            None => return Ok((left, p)),
        };
        let (right, j) = match parse_multiplicative(t, p + 1) {
            Ok(x) => x,
            Err(e) => return Err(e),
        };
        left = Expr::binary(op, left, right);
        p = j;
    }
}

/// The comparison that a token names.
fn comparison_op(k: &TokenKind) -> (r: Option<CompareOp>)
    ensures
        r == compare_op(k@),
{
    match k {
        TokenKind::Eq => Some(CompareOp::Eq),
        TokenKind::Ne => Some(CompareOp::Ne),
        TokenKind::Lt => Some(CompareOp::Lt),
        TokenKind::Le => Some(CompareOp::Le),
        TokenKind::Gt => Some(CompareOp::Gt),
        TokenKind::Ge => Some(CompareOp::Ge),
        TokenKind::Ident(s) => if *s.as_str() == *kw::MATCHES {
            Some(CompareOp::Matches)
        } else if *s.as_str() == *kw::STARTS_WITH {
            Some(CompareOp::StartsWith)
        } else if *s.as_str() == *kw::ENDS_WITH {
            Some(CompareOp::EndsWith)
        } else if *s.as_str() == *kw::CONTAINS {
            Some(CompareOp::Contains)
        } else {
            None
        },
        _ => None,
    }
}

/// A comparison. A field set on the left makes one of all its fields.
#[verifier::spinoff_prover]
fn make_comparison(l: Expr, op: CompareOp, r: Expr) -> (x: Expr)
    ensures
        x@ == comparison(l@, op, r@),
{
    let ghost left = l@;
    proof {
        reveal(expr_view);
        reveal(path_view);
        reveal(seg_views);
        reveal(seg_view);
        reveal(item_views);
    }
    match l {
        Expr::Path(p) => {
            let n = p.segments.len();
            if n > 0 && matches!(&p.segments[n - 1], PathSeg::FieldSet(_)) {
                let ghost whole = p;
                let mut p = p;
                match p.segments.pop() {
                    Some(PathSeg::FieldSet(items)) => {
                        assert(seg_views(p.segments@) =~= seg_views(whole.segments@).drop_last());
                        assert(seg_views(whole.segments@).last() == seg_view(
                            whole.segments@.last(),
                        ));
                        assert(left == ExprV::Path(path_view(whole)));
                        assert(path_view(whole).segments == seg_views(whole.segments@));
                        assert(path_view(p).segments == seg_views(p.segments@));
                        assert(seg_view(whole.segments@.last()) == PathSegV::FieldSet(
                            item_views(items@),
                        ));
                        Expr::field_set_compare(p, items, op, r)
                    },
                    _ => Expr::compare(Expr::path(p), op, r),
                }
            } else {
                assert(left == ExprV::Path(path_view(p)));
                assert(path_view(p).segments == seg_views(p.segments@));
                assert(n > 0 ==> seg_views(p.segments@).last() == seg_view(p.segments@.last()));
                Expr::compare(Expr::path(p), op, r)
            }
        },
        _ => {
            assert(!(left is Path));
            Expr::compare(l, op, r)
        },
    }
}

/// A type test, after `is` and `not`.
fn parse_type_test(t: &Vec<Token>, l: Expr, negated: bool, i: usize) -> (r: Result<
    (Expr, usize),
    QueryError,
>)
    requires
        ready(t@),
        i < t@.len(),
    ensures
        read(r, type_test(seen(t@), l@, negated, i as int), i, t@.len()),
{
    match ident_at(t, i) {
        Some(s) => match JsonTypeKind::from_keyword(s.as_str()) {
            Some(kind) => Ok((Expr::type_test(l, kind, negated), i + 1)),
            None => Err(
                error_at(
                    t,
                    i,
                    wrapped("unknown JSON type `", s.as_str(), "` after `is`").as_str(),
                ),
            ),
        },
        None => Err(error_at(t, i, "expected a JSON type name after `is`")),
    }
}

/// A comparison or a test.
#[verifier::spinoff_prover]
fn parse_compare(t: &Vec<Token>, i: usize) -> (out: Result<(Expr, usize), QueryError>)
    requires
        ready(t@),
        i < t@.len(),
    ensures
        read(out, compare_expr(seen(t@), i as int), i, t@.len()),
    decreases t@.len() - i, 11int,
{
    proof {
        reveal(compare_expr);
        reveal(sum);
        reveal(compare_from);
    }
    let (l, j) = match parse_additive(t, i) {
        Ok(x) => x,
        Err(e) => return Err(e),
    };
    if at_word(t, j, kw::EXISTS) {
        return Ok((Expr::exists_of(l), j + 1));
    }
    if at_word(t, j, kw::IS) {
        if at_word(t, j + 1, kw::NOT) {
            return parse_type_test(t, l, true, j + 2);
        }
        return parse_type_test(t, l, false, j + 1);
    }
    if at_word(t, j, kw::IN) {
        let (r, k) = match parse_additive(t, j + 1) {
            Ok(x) => x,
            Err(e) => return Err(e),
        };
        return Ok((Expr::is_in(l, r), k));
    }
    if at_word(t, j, kw::NOT) && at_word(t, j + 1, kw::IN) {
        let (r, k) = match parse_additive(t, j + 2) {
            Ok(x) => x,
            Err(e) => return Err(e),
        };
        return Ok((Expr::not_in(l, r), k));
    }
    match compare_op_at(t, j) {
        None => Ok((l, j)),
        Some(op) => {
            let (r, k) = match parse_additive(t, j + 1) {
                Ok(x) => x,
                Err(e) => return Err(e),
            };
            Ok((make_comparison(l, op, r), k))
        },
    }
}

/// A negation.
#[verifier::spinoff_prover]
fn parse_not(t: &Vec<Token>, i: usize) -> (r: Result<(Expr, usize), QueryError>)
    requires
        ready(t@),
        i < t@.len(),
    ensures
        read(r, not_expr(seen(t@), i as int), i, t@.len()),
    decreases t@.len() - i, 12int,
{
    proof {
        reveal(not_expr);
        reveal(compare_expr);
    }
    if at_word(t, i, kw::NOT) {
        let (x, j) = match parse_not(t, i + 1) {
            Ok(x) => x,
            Err(e) => return Err(e),
        };
        Ok((Expr::not(x), j))
    } else {
        parse_compare(t, i)
    }
}

/// Conjuncts.
#[verifier::spinoff_prover]
fn parse_and(t: &Vec<Token>, i: usize) -> (r: Result<(Expr, usize), QueryError>)
    requires
        ready(t@),
        i < t@.len(),
    ensures
        read(r, and_expr(seen(t@), i as int), i, t@.len()),
    decreases t@.len() - i, 13int,
{
    proof {
        reveal(and_expr);
        reveal(not_expr);
        reveal(and_from);
    }
    let (first, next) = match parse_not(t, i) {
        Ok(x) => x,
        Err(e) => return Err(e),
    };
    let mut left: Expr = first;
    let mut p: usize = next;
    loop
        invariant
            ready(t@),
            i < p < t@.len(),
            and_expr(seen(t@), i as int) == and_from(seen(t@), left@, p as int),
        decreases t@.len() - p,
    {
        proof {
            reveal(and_from);
            reveal(not_expr);
        }
        if !at_word(t, p, kw::AND) {
            return Ok((left, p));
        }
        let (right, j) = match parse_not(t, p + 1) {
            Ok(x) => x,
            Err(e) => return Err(e),
        };
        left = Expr::and(left, right);
        p = j;
    }
}

/// An expression.
#[verifier::spinoff_prover]
fn parse_or(t: &Vec<Token>, i: usize) -> (r: Result<(Expr, usize), QueryError>)
    requires
        ready(t@),
        i < t@.len(),
    ensures
        read(r, or_expr(seen(t@), i as int), i, t@.len()),
    decreases t@.len() - i, 14int,
{
    proof {
        reveal(or_expr);
        reveal(and_expr);
        reveal(or_from);
    }
    let (first, next) = match parse_and(t, i) {
        Ok(x) => x,
        Err(e) => return Err(e),
    };
    let mut left: Expr = first;
    let mut p: usize = next;
    loop
        invariant
            ready(t@),
            i < p < t@.len(),
            or_expr(seen(t@), i as int) == or_from(seen(t@), left@, p as int),
        decreases t@.len() - p,
    {
        proof {
            reveal(or_from);
            reveal(and_expr);
        }
        if !at_word(t, p, kw::OR) {
            return Ok((left, p));
        }
        let (right, j) = match parse_and(t, p + 1) {
            Ok(x) => x,
            Err(e) => return Err(e),
        };
        left = Expr::or(left, right);
        p = j;
    }
}

/// `PATH as ALIAS`, after `from`.
#[verifier::spinoff_prover]
fn parse_source_clause(t: &Vec<Token>, i: usize) -> (r: Result<(SourceClause, usize), QueryError>)
    requires
        ready(t@),
        i < t@.len(),
    ensures
        read(r, source_clause(seen(t@), i as int), i, t@.len()),
    decreases t@.len() - i, 5int,
{
    proof {
        reveal(source_clause);
        reveal(path);
    }
    let (p, j) = match parse_path(t, i, false) {
        Ok(x) => x,
        Err(e) => return Err(e),
    };
    if !at_word(t, j, kw::AS) {
        return Err(error_at(t, j, "expected `as ALIAS` after `from PATH`"));
    }
    let (a, k) = match parse_alias(t, j + 1) {
        Ok(x) => x,
        Err(e) => return Err(e),
    };
    Ok((SourceClause::new(p, a), k))
}

/// `PATH as ALIAS on EXPR`, after `join`.
#[verifier::spinoff_prover]
fn parse_join_clause(t: &Vec<Token>, i: usize, kind: JoinKind) -> (r: Result<(JoinClause, usize), QueryError>)
    requires
        ready(t@),
        i < t@.len(),
    ensures
        read(r, join_clause(seen(t@), i as int, kind), i, t@.len()),
    decreases t@.len() - i, 5int,
{
    proof {
        reveal(join_clause);
        reveal(path);
        reveal(or_expr);
    }
    let (p, j) = match parse_path(t, i, false) {
        Ok(x) => x,
        Err(e) => return Err(e),
    };
    if !at_word(t, j, kw::AS) {
        return Err(error_at(t, j, "expected `as ALIAS` after `join PATH`"));
    }
    let (a, k) = match parse_alias(t, j + 1) {
        Ok(x) => x,
        Err(e) => return Err(e),
    };
    if !at_word(t, k, kw::ON) {
        return Err(error_at(t, k, "expected `on LEFT == RIGHT` after `join PATH as ALIAS`"));
    }
    let (on, m) = match parse_or(t, k + 1) {
        Ok(x) => x,
        Err(e) => return Err(e),
    };
    Ok((JoinClause::new(p, a, on, kind), m))
}

/// The words that start a join, and its kind.
fn parse_join_head(t: &Vec<Token>, i: usize) -> (r: Result<(Option<JoinKind>, usize), QueryError>)
    requires
        ready(t@),
        i < t@.len(),
    ensures
        match r {
            Ok((k, j)) => join_head(seen(t@), i as int) == Ok::<_, QueryFault>((k, j as int)) && i
                <= j < t@.len() && (k is Some ==> i < j),
            Err(e) => join_head(seen(t@), i as int) == Err::<(Option<JoinKind>, int), _>(e@),
        },
{
    if at_word(t, i, kw::INNER) {
        if !at_word(t, i + 1, kw::JOIN) {
            return Err(error_at(t, i + 1, "expected `join` after `inner`"));
        }
        Ok((Some(JoinKind::Inner), i + 2))
    } else if at_word(t, i, kw::LEFT) {
        if !at_word(t, i + 1, kw::JOIN) {
            return Err(error_at(t, i + 1, "expected `join` after `left`"));
        }
        Ok((Some(JoinKind::Left), i + 2))
    } else if at_word(t, i, kw::JOIN) {
        Ok((Some(JoinKind::Inner), i + 1))
    } else {
        Ok((None, i))
    }
}

/// The joins of a query.
#[verifier::spinoff_prover]
fn parse_joins(t: &Vec<Token>, i: usize) -> (r: Result<(Vec<JoinClause>, usize), QueryError>)
    requires
        ready(t@),
        i < t@.len(),
    ensures
        match r {
            Ok((v, j)) => joins(seen(t@), Seq::empty(), i as int) == Ok::<_, QueryFault>(
                (join_views(v@), j as int),
            ) && i <= j < t@.len(),
            Err(e) => joins(seen(t@), Seq::empty(), i as int) == Err::<
                (Seq<JoinClauseV>, int),
                _,
            >(e@),
        },
    decreases t@.len() - i, 6int,
{
    proof {
        reveal(joins);
        reveal(join_clause);
    }
    let mut acc: Vec<JoinClause> = no_joins();
    let mut p: usize = i;
    loop
        invariant
            ready(t@),
            i <= p < t@.len(),
            joins(seen(t@), Seq::empty(), i as int) == joins(
                seen(t@),
                join_views(acc@),
                p as int,
            ),
        decreases t@.len() - p,
    {
        proof {
            reveal(joins);
            reveal(join_clause);
        }
        let (head, h) = match parse_join_head(t, p) {
            Ok(x) => x,
            Err(e) => return Err(e),
        };
        let kind = match head {
            Some(kind) => kind,
            None => return Ok((acc, p)),
        };
        let (x, j) = match parse_join_clause(t, h, kind) {
            Ok(x) => x,
            Err(e) => return Err(e),
        };
        push_join(&mut acc, x);
        p = j;
    }
}

/// `EXPR as ALIAS`, after `unnest`.
#[verifier::spinoff_prover]
fn parse_unnest_clause(t: &Vec<Token>, i: usize) -> (r: Result<(UnnestClause, usize), QueryError>)
    requires
        ready(t@),
        i < t@.len(),
    ensures
        read(r, unnest_clause(seen(t@), i as int), i, t@.len()),
    decreases t@.len() - i, 15int,
{
    proof {
        reveal(unnest_clause);
        reveal(or_expr);
    }
    let (x, j) = match parse_or(t, i) {
        Ok(x) => x,
        Err(e) => return Err(e),
    };
    if !at_word(t, j, kw::AS) {
        return Err(error_at(t, j, "expected `as ALIAS` after `unnest EXPR`"));
    }
    let (a, k) = match parse_alias(t, j + 1) {
        Ok(x) => x,
        Err(e) => return Err(e),
    };
    Ok((UnnestClause::new(x, a), k))
}

/// The `unnest` clauses of a query.
#[verifier::spinoff_prover]
fn parse_unnests(t: &Vec<Token>, i: usize) -> (r: Result<(Vec<UnnestClause>, usize), QueryError>)
    requires
        ready(t@),
        i < t@.len(),
    ensures
        match r {
            Ok((v, j)) => unnests(seen(t@), Seq::empty(), i as int) == Ok::<_, QueryFault>(
                (unnest_views(v@), j as int),
            ) && i <= j < t@.len(),
            Err(e) => unnests(seen(t@), Seq::empty(), i as int) == Err::<
                (Seq<UnnestClauseV>, int),
                _,
            >(e@),
        },
    decreases t@.len() - i, 0int,
{
    proof {
        reveal(unnests);
        reveal(unnest_clause);
    }
    let mut acc: Vec<UnnestClause> = no_unnests();
    let mut p: usize = i;
    loop
        invariant
            ready(t@),
            i <= p < t@.len(),
            unnests(seen(t@), Seq::empty(), i as int) == unnests(
                seen(t@),
                unnest_views(acc@),
                p as int,
            ),
        decreases t@.len() - p,
    {
        proof {
            reveal(unnests);
            reveal(unnest_clause);
        }
        if !at_word(t, p, kw::UNNEST) {
            return Ok((acc, p));
        }
        let (x, j) = match parse_unnest_clause(t, p + 1) {
            Ok(x) => x,
            Err(e) => return Err(e),
        };
        push_unnest(&mut acc, x);
        p = j;
    }
}

/// `NAME = EXPR`.
#[verifier::spinoff_prover]
fn parse_alias_let(t: &Vec<Token>, i: usize) -> (r: Result<(AliasLet, usize), QueryError>)
    requires
        ready(t@),
        i < t@.len(),
    ensures
        read(r, alias_let(seen(t@), i as int), i, t@.len()),
    decreases t@.len() - i, 0int,
{
    proof {
        reveal(alias_let);
        reveal(or_expr);
    }
    let (n, j) = match parse_ident(t, i, "expected identifier after `let`") {
        Ok(x) => x,
        Err(e) => return Err(e),
    };
    if !at_assign(t, j) {
        return Err(error_at(t, j, "expected `=` after `let NAME`"));
    }
    let (x, k) = match parse_or(t, j + 1) {
        Ok(x) => x,
        Err(e) => return Err(e),
    };
    Ok((AliasLet::new(n, x), k))
}

/// One or more aliases.
#[verifier::spinoff_prover]
fn parse_alias_lets(t: &Vec<Token>, i: usize) -> (r: Result<(Vec<AliasLet>, usize), QueryError>)
    requires
        ready(t@),
        i < t@.len(),
    ensures
        match r {
            Ok((v, j)) => alias_lets(seen(t@), Seq::empty(), i as int) == Ok::<_, QueryFault>(
                (let_views(v@), j as int),
            ) && i < j < t@.len(),
            Err(e) => alias_lets(seen(t@), Seq::empty(), i as int) == Err::<
                (Seq<AliasLetV>, int),
                _,
            >(e@),
        },
    decreases t@.len() - i, 1int,
{
    proof {
        reveal(alias_lets);
        reveal(alias_let);
    }
    let mut acc: Vec<AliasLet> = no_lets();
    let mut p: usize = i;
    loop
        invariant
            ready(t@),
            i <= p < t@.len(),
            alias_lets(seen(t@), Seq::empty(), i as int) == alias_lets(
                seen(t@),
                let_views(acc@),
                p as int,
            ),
        decreases t@.len() - p,
    {
        proof {
            reveal(alias_lets);
            reveal(alias_let);
        }
        let (x, j) = match parse_alias_let(t, p) {
            Ok(x) => x,
            Err(e) => return Err(e),
        };
        push_let(&mut acc, x);
        if at_comma(t, j) {
            p = j + 1;
        } else {
            return Ok((acc, j));
        }
    }
}

/// An optional `let` clause.
#[verifier::spinoff_prover]
fn parse_let_clause(t: &Vec<Token>, i: usize) -> (r: Result<(Vec<AliasLet>, usize), QueryError>)
    requires
        ready(t@),
        i < t@.len(),
    ensures
        match r {
            Ok((v, j)) => let_clause(seen(t@), i as int) == Ok::<_, QueryFault>(
                (let_views(v@), j as int),
            ) && i <= j < t@.len(),
            Err(e) => let_clause(seen(t@), i as int) == Err::<(Seq<AliasLetV>, int), _>(e@),
        },
    decreases t@.len() - i, 0int,
{
    proof {
        reveal(let_clause);
        reveal(alias_lets);
    }
    let empty: Vec<AliasLet> = no_lets();
    if at_word(t, i, kw::LET) {
        parse_alias_lets(t, i + 1)
    } else {
        Ok((empty, i))
    }
}

/// `NAME: OUTPUT [where PRED] [?? DEFAULT]`.
#[verifier::spinoff_prover]
fn parse_agg_block_item(t: &Vec<Token>, i: usize) -> (r: Result<(AggBlockItem, usize), QueryError>)
    requires
        ready(t@),
        i < t@.len(),
    ensures
        read(r, agg_item(seen(t@), i as int), i, t@.len()),
    decreases t@.len() - i, 0int,
{
    proof {
        reveal(agg_item);
        reveal(default_clause);
        reveal(condition);
        reveal(or_expr);
    }
    let (n, j) = match parse_name(t, i, "expected a name identifier") {
        Ok(x) => x,
        Err(e) => return Err(e),
    };
    if !at_colon(t, j) {
        return Err(
            error_at(t, j, "expected `:` between reduction name and output expression"),
        );
    }
    let (output, k) = match parse_or(t, j + 1) {
        Ok(x) => x,
        Err(e) => return Err(e),
    };
    let (where_pred, m) = match parse_condition(t, k, kw::WHERE) {
        Ok(x) => x,
        Err(e) => return Err(e),
    };
    let (default, z) = match parse_default(t, m) {
        Ok(x) => x,
        Err(e) => return Err(e),
    };
    Ok((AggBlockItem::new(n, output, where_pred, default), z))
}

/// The items of an aggregate block.
#[verifier::spinoff_prover]
fn parse_agg_items(t: &Vec<Token>, i: usize) -> (r: Result<(Vec<AggBlockItem>, usize), QueryError>)
    requires
        ready(t@),
        i < t@.len(),
    ensures
        match r {
            Ok((v, j)) => agg_items(seen(t@), Seq::empty(), i as int) == Ok::<_, QueryFault>(
                (agg_item_views(v@), j as int),
            ) && i <= j < t@.len(),
            Err(e) => agg_items(seen(t@), Seq::empty(), i as int) == Err::<
                (Seq<AggBlockItemV>, int),
                _,
            >(e@),
        },
    decreases t@.len() - i, 1int,
{
    proof {
        reveal(agg_items);
        reveal(agg_item);
    }
    let mut acc: Vec<AggBlockItem> = no_agg_items();
    let mut p: usize = i;
    loop
        invariant
            ready(t@),
            i <= p < t@.len(),
            agg_items(seen(t@), Seq::empty(), i as int) == agg_items(
                seen(t@),
                agg_item_views(acc@),
                p as int,
            ),
        decreases t@.len() - p,
    {
        proof {
            reveal(agg_items);
            reveal(agg_item);
        }
        if at_close_brace(t, p) {
            return Ok((acc, p));
        }
        let (x, j) = match parse_agg_block_item(t, p) {
            Ok(x) => x,
            Err(e) => return Err(e),
        };
        push_agg_item(&mut acc, x);
        if at_comma(t, j) {
            p = j + 1;
        } else {
            return Ok((acc, j));
        }
    }
}

/// The keys after an aggregate block, and whether they roll up.
#[verifier::spinoff_prover]
fn parse_group_clause(t: &Vec<Token>, i: usize) -> (r: Result<((Vec<Expr>, bool), usize), QueryError>)
    requires
        ready(t@),
        i < t@.len(),
    ensures
        match r {
            Ok(((v, rollup), j)) => group_clause(seen(t@), i as int) == Ok::<_, QueryFault>(
                ((expr_views(v@), rollup), j as int),
            ) && i <= j < t@.len(),
            Err(e) => group_clause(seen(t@), i as int) == Err::<((Seq<ExprV>, bool), int), _>(e@),
        },
    decreases t@.len() - i, 0int,
{
    proof {
        reveal(group_clause);
        reveal(expr_list);
    }
    if !at_word(t, i, kw::BY) {
        let empty: Vec<Expr> = no_exprs();
        Ok(((empty, false), i))
    } else if at_word(t, i + 1, kw::ROLLUP) {
        if !at_open_paren(t, i + 2) {
            return Err(error_at(t, i + 2, "expected `(` after `rollup`"));
        }
        let (keys, j) = match parse_expr_list(t, i + 3) {
            Ok(x) => x,
            Err(e) => return Err(e),
        };
        if !at_close_paren(t, j) {
            return Err(error_at(t, j, "expected `)` to close `rollup(...)`"));
        }
        Ok(((keys, true), j + 1))
    } else {
        let (keys, j) = match parse_expr_list(t, i + 1) {
            Ok(x) => x,
            Err(e) => return Err(e),
        };
        Ok(((keys, false), j))
    }
}

/// `{ .. } [by ..]`, after `aggregate`.
#[verifier::spinoff_prover]
fn parse_aggregate_block(t: &Vec<Token>, i: usize) -> (r: Result<(AggregateBlock, usize), QueryError>)
    requires
        ready(t@),
        i < t@.len(),
    ensures
        read(r, aggregate_block(seen(t@), i as int), i, t@.len()),
    decreases t@.len() - i, 0int,
{
    proof {
        reveal(aggregate_block);
        reveal(agg_items);
        reveal(group_clause);
    }
    if !at_open_brace(t, i) {
        return Err(error_at(t, i, "expected `{` after `aggregate`"));
    }
    let (reductions, j) = match parse_agg_items(t, i + 1) {
        Ok(x) => x,
        Err(e) => return Err(e),
    };
    if !at_close_brace(t, j) {
        return Err(error_at(t, j, "expected `}` to close aggregate block"));
    }
    proof {
        agg_item_views_len(reductions@);
    }
    if reductions.len() == 0 {
        return Err(
            error_at(t, j + 1, "aggregate block must contain at least one reduction"),
        );
    }
    let ((group_by, rollup), k) = match parse_group_clause(t, j + 1) {
        Ok(x) => x,
        Err(e) => return Err(e),
    };
    Ok((AggregateBlock::new(reductions, group_by, rollup), k))
}

/// An optional aggregate clause. A reducer in its place is an error.
#[verifier::spinoff_prover]
fn parse_aggregate_clause(t: &Vec<Token>, i: usize) -> (r: Result<
    (Option<AggregateClause>, usize),
    QueryError,
>)
    requires
        ready(t@),
        i < t@.len(),
    ensures
        match r {
            Ok((v, j)) => aggregate_clause(seen(t@), i as int) == Ok::<_, QueryFault>(
                (opt_aggregate_view(v), j as int),
            ) && i <= j < t@.len(),
            Err(e) => aggregate_clause(seen(t@), i as int) == Err::<
                (Option<super::ast::AggregateClauseV>, int),
                _,
            >(e@),
        },
    decreases t@.len() - i, 0int,
{
    proof {
        reveal(opt_aggregate_view);
        reveal(aggregate_view);
        reveal(aggregate_clause);
        reveal(or_expr);
        reveal(aggregate_block);
    }
    match ident_at(t, i) {
        Some(s) => if *s.as_str() == *kw::AGGREGATE {
            let (b, j) = match parse_aggregate_block(t, i + 1) {
                Ok(x) => x,
                Err(e) => return Err(e),
            };
            Ok((Some(AggregateClause::block(b)), j))
        } else if *s.as_str() == *kw::COLLECT {
            if !at_word(t, i + 1, kw::BY) {
                return Err(error_at(t, i + 1, "expected `by` after `collect`"));
            }
            let (key, j) = match parse_or(t, i + 2) {
                Ok(x) => x,
                Err(e) => return Err(e),
            };
            Ok((Some(AggregateClause::group(key)), j))
        } else if reducer(s.as_str()).is_some() {
            let mut message = wrapped(
                "reducer `",
                s.as_str(),
                "` is only valid inside `aggregate { ... }` — write `aggregate { <name>: ",
            );
            message.append(s.as_str());
            message.append("(<expr>) } [by KEY]` instead");
            Err(error_at(t, i, message.as_str()))
        } else {
            Ok((None, i))
        },
        None => Ok((None, i)),
    }
}

/// The fields of a `select` block.
#[verifier::spinoff_prover]
fn parse_select_fields(t: &Vec<Token>, i: usize) -> (r: Result<(Vec<(String, Expr)>, usize), QueryError>)
    requires
        ready(t@),
        i < t@.len(),
    ensures
        match r {
            Ok((v, j)) => select_fields(seen(t@), Seq::empty(), i as int) == Ok::<_, QueryFault>(
                (select_views(v@), j as int),
            ) && i <= j < t@.len(),
            Err(e) => select_fields(seen(t@), Seq::empty(), i as int) == Err::<
                (Seq<(Seq<char>, ExprV)>, int),
                _,
            >(e@),
        },
    decreases t@.len() - i, 0int,
{
    proof {
        reveal(select_fields);
        reveal(or_expr);
    }
    let mut acc: Vec<(String, Expr)> = no_selects();
    let mut p: usize = i;
    loop
        invariant
            ready(t@),
            i <= p < t@.len(),
            select_fields(seen(t@), Seq::empty(), i as int) == select_fields(
                seen(t@),
                select_views(acc@),
                p as int,
            ),
        decreases t@.len() - p,
    {
        proof {
            reveal(select_fields);
            reveal(or_expr);
        }
        if at_close_brace(t, p) {
            return Ok((acc, p));
        }
        let (n, c) = match parse_name(t, p, "expected field name in `select { ... }`") {
            Ok(x) => x,
            Err(e) => return Err(e),
        };
        if !at_colon(t, c) {
            return Err(error_at(t, c, "expected `:` after field name"));
        }
        let (x, j) = match parse_or(t, c + 1) {
            Ok(x) => x,
            Err(e) => return Err(e),
        };
        push_select(&mut acc, n, x);
        if at_comma(t, j) {
            p = j + 1;
        } else {
            return Ok((acc, j));
        }
    }
}

/// An optional `select` clause.
#[verifier::spinoff_prover]
fn parse_select_clause(t: &Vec<Token>, i: usize) -> (r: Result<
    (Option<Vec<(String, Expr)>>, usize),
    QueryError,
>)
    requires
        ready(t@),
        i < t@.len(),
    ensures
        match r {
            Ok((v, j)) => select_clause(seen(t@), i as int) == Ok::<_, QueryFault>(
                (opt_select_view(v), j as int),
            ) && i <= j < t@.len(),
            Err(e) => select_clause(seen(t@), i as int) == Err::<
                (Option<Seq<(Seq<char>, ExprV)>>, int),
                _,
            >(e@),
        },
    decreases t@.len() - i, 0int,
{
    proof {
        reveal(opt_select_view);
        reveal(select_views);
        reveal(select_clause);
        reveal(select_fields);
    }
    if !at_word(t, i, kw::SELECT) {
        return Ok((None, i));
    }
    if !at_open_brace(t, i + 1) {
        return Err(error_at(t, i + 1, "expected `{` after `select`"));
    }
    let (v, j) = match parse_select_fields(t, i + 2) {
        Ok(x) => x,
        Err(e) => return Err(e),
    };
    if !at_close_brace(t, j) {
        return Err(error_at(t, j, "expected `}` to close select block"));
    }
    proof {
        select_views_len(v@);
    }
    if v.len() == 0 {
        return Err(error_at(t, j + 1, "`select { ... }` must contain at least one field"));
    }
    Ok((Some(v), j + 1))
}

/// `EXPR [asc|desc]`.
#[verifier::spinoff_prover]
fn parse_one_order_key(t: &Vec<Token>, i: usize) -> (r: Result<(OrderKey, usize), QueryError>)
    requires
        ready(t@),
        i < t@.len(),
    ensures
        read(r, order_key(seen(t@), i as int), i, t@.len()),
    decreases t@.len() - i, 15int,
{
    proof {
        reveal(order_key);
        reveal(or_expr);
    }
    let (x, j) = match parse_or(t, i) {
        Ok(x) => x,
        Err(e) => return Err(e),
    };
    if at_word(t, j, kw::DESC) {
        Ok((OrderKey::new(x, true), j + 1))
    } else if at_word(t, j, kw::ASC) {
        Ok((OrderKey::new(x, false), j + 1))
    } else {
        Ok((OrderKey::new(x, false), j))
    }
}

/// One or more sort keys.
#[verifier::spinoff_prover]
fn parse_order_keys(t: &Vec<Token>, i: usize) -> (r: Result<(Vec<OrderKey>, usize), QueryError>)
    requires
        ready(t@),
        i < t@.len(),
    ensures
        match r {
            Ok((v, j)) => order_keys(seen(t@), Seq::empty(), i as int) == Ok::<_, QueryFault>(
                (order_views(v@), j as int),
            ) && i < j < t@.len(),
            Err(e) => order_keys(seen(t@), Seq::empty(), i as int) == Err::<
                (Seq<OrderKeyV>, int),
                _,
            >(e@),
        },
    decreases t@.len() - i, 16int,
{
    proof {
        reveal(order_keys);
        reveal(order_key);
    }
    let mut acc: Vec<OrderKey> = no_orders();
    let mut p: usize = i;
    loop
        invariant
            ready(t@),
            i <= p < t@.len(),
            order_keys(seen(t@), Seq::empty(), i as int) == order_keys(
                seen(t@),
                order_views(acc@),
                p as int,
            ),
        decreases t@.len() - p,
    {
        proof {
            reveal(order_keys);
            reveal(order_key);
        }
        let (x, j) = match parse_one_order_key(t, p) {
            Ok(x) => x,
            Err(e) => return Err(e),
        };
        push_order(&mut acc, x);
        if at_comma(t, j) {
            p = j + 1;
        } else {
            return Ok((acc, j));
        }
    }
}

/// An optional `order by` clause.
#[verifier::spinoff_prover]
fn parse_order_clause(t: &Vec<Token>, i: usize) -> (r: Result<(Vec<OrderKey>, usize), QueryError>)
    requires
        ready(t@),
        i < t@.len(),
    ensures
        match r {
            Ok((v, j)) => order_clause(seen(t@), i as int) == Ok::<_, QueryFault>(
                (order_views(v@), j as int),
            ) && i <= j < t@.len(),
            Err(e) => order_clause(seen(t@), i as int) == Err::<(Seq<OrderKeyV>, int), _>(e@),
        },
    decreases t@.len() - i, 0int,
{
    proof {
        reveal(order_clause);
        reveal(order_keys);
    }
    let empty: Vec<OrderKey> = no_orders();
    if !at_word(t, i, kw::ORDER) {
        return Ok((empty, i));
    }
    if !at_word(t, i + 1, kw::BY) {
        return Err(error_at(t, i + 1, "expected `by` after `order`"));
    }
    parse_order_keys(t, i + 2)
}

/// The number of a `limit` clause.
fn limit_number(s: &str) -> (r: Option<u64>)
    ensures
        r == limit_value(s@),
{
    let negative: bool = s.unicode_len() > 0 && s.get_char(0) == '-';
    match whole_magnitude(s) {
        Some(n) => if negative && n > 0 {
            None
        } else {
            Some(n)
        },
        None => None,
    }
}

/// An optional `limit` clause.
fn parse_limit_clause(t: &Vec<Token>, i: usize) -> (r: Result<(Option<u64>, usize), QueryError>)
    requires
        ready(t@),
        i < t@.len(),
    ensures
        match r {
            Ok((v, j)) => limit_clause(seen(t@), i as int) == Ok::<_, QueryFault>((v, j as int))
                && i <= j < t@.len(),
            Err(e) => limit_clause(seen(t@), i as int) == Err::<(Option<u64>, int), _>(e@),
        },
{
    if !at_word(t, i, kw::LIMIT) {
        return Ok((None, i));
    }
    match number_at(t, i + 1) {
        Some(s) => match limit_number(s.as_str()) {
            Some(n) => Ok((Some(n), i + 2)),
            None => {
                let mut message = "limit must be a non-negative integer, got ".to_string();
                message.append(plain_numeral(s.as_str()).as_str());
                Err(error_at(t, i + 1, message.as_str()))
            },
        },
        None => Err(error_at(t, i + 1, "expected a non-negative integer after `limit`")),
    }
}

/// A query.
#[verifier::spinoff_prover]
fn parse_query(t: &Vec<Token>, i: usize) -> (r: Result<(Query, usize), QueryError>)
    requires
        ready(t@),
        i < t@.len(),
    ensures
        read(r, query(seen(t@), i as int), i, t@.len()),
    decreases t@.len() - i, 20int,
{
    proof {
        reveal(query);
        reveal(field_sets);
        reveal(query_rows);
    }
    let (field_sets, a) = match parse_field_sets(t, i) {
        Ok(x) => x,
        Err(e) => return Err(e),
    };
    if !at_word(t, a, kw::FROM) {
        return Err(error_at(t, a, "every query must start with `from PATH as ALIAS`"));
    }
    parse_query_rows(t, a + 1, field_sets)
}

/// The clauses of a query after `from`.
#[verifier::spinoff_prover]
fn parse_query_rows(t: &Vec<Token>, i: usize, field_sets: Vec<FieldSetDef>) -> (r: Result<
    (Query, usize),
    QueryError,
>)
    requires
        ready(t@),
        i < t@.len(),
    ensures
        read(r, query_rows(seen(t@), field_set_views(field_sets@), i as int), i, t@.len()),
    decreases t@.len() - i, 19int,
{
    proof {
        reveal(query_rows);
        reveal(condition);
        reveal(source_clause);
        reveal(joins);
        reveal(unnests);
        reveal(query_groups);
    }
    let (source, b) = match parse_source_clause(t, i) {
        Ok(x) => x,
        Err(e) => return Err(e),
    };
    let (joins, c) = match parse_joins(t, b) {
        Ok(x) => x,
        Err(e) => return Err(e),
    };
    let (unnests, d) = match parse_unnests(t, c) {
        Ok(x) => x,
        Err(e) => return Err(e),
    };
    let (where_clause, f) = match parse_condition(t, d, kw::WHERE) {
        Ok(x) => x,
        Err(e) => return Err(e),
    };
    parse_query_groups(t, f, Query::rows(field_sets, source, joins, unnests, where_clause))
}

/// The clauses of a query from `let` on.
#[verifier::spinoff_prover]
fn parse_query_groups(t: &Vec<Token>, i: usize, q: Query) -> (r: Result<(Query, usize), QueryError>)
    requires
        ready(t@),
        i < t@.len(),
    ensures
        match r {
            Ok((v, j)) => query_groups(seen(t@), q@, i as int) == Ok::<_, QueryFault>(
                (v@, j as int),
            ) && i <= j < t@.len(),
            Err(e) => query_groups(seen(t@), q@, i as int) == Err::<
                (super::ast::QueryV, int),
                _,
            >(e@),
        },
    decreases t@.len() - i, 18int,
{
    proof {
        reveal(query_groups);
        reveal(condition);
        reveal(let_clause);
        reveal(aggregate_clause);
        reveal(query_output);
    }
    let (alias_lets, a) = match parse_let_clause(t, i) {
        Ok(x) => x,
        Err(e) => return Err(e),
    };
    let distinct = at_word(t, a, kw::DISTINCT);
    let b: usize = if distinct {
        a + 1
    } else {
        a
    };
    let (aggregate, c) = match parse_aggregate_clause(t, b) {
        Ok(x) => x,
        Err(e) => return Err(e),
    };
    let (having, d) = match parse_condition(t, c, kw::HAVING) {
        Ok(x) => x,
        Err(e) => return Err(e),
    };
    parse_query_output(t, d, q.with_groups(alias_lets, distinct, aggregate, having))
}

/// The last clauses of a query.
#[verifier::spinoff_prover]
fn parse_query_output(t: &Vec<Token>, i: usize, q: Query) -> (r: Result<(Query, usize), QueryError>)
    requires
        ready(t@),
        i < t@.len(),
    ensures
        match r {
            Ok((v, j)) => query_output(seen(t@), q@, i as int) == Ok::<_, QueryFault>(
                (v@, j as int),
            ) && i <= j < t@.len(),
            Err(e) => query_output(seen(t@), q@, i as int) == Err::<
                (super::ast::QueryV, int),
                _,
            >(e@),
        },
    decreases t@.len() - i, 17int,
{
    proof {
        reveal(query_output);
        reveal(select_clause);
        reveal(order_clause);
    }
    let (project, a) = match parse_select_clause(t, i) {
        Ok(x) => x,
        Err(e) => return Err(e),
    };
    let (order_by, b) = match parse_order_clause(t, a) {
        Ok(x) => x,
        Err(e) => return Err(e),
    };
    let (limit, c) = match parse_limit_clause(t, b) {
        Ok(x) => x,
        Err(e) => return Err(e),
    };
    Ok((q.with_output(project, order_by, limit), c))
}

} // verus!
