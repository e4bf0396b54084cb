//! The parser reads the tokens of a query's layout back as the query.
use vstd::prelude::*;

use super::super::grammar::kw;
use super::super::lexer::{Tok, TokAt};
use super::super::QueryFault;
use super::super::ast::CompareOp;
use super::ast::{
    AggBlockItemV, AggregateBlockV, AggregateClauseV, AliasLetV, ExprV, JoinClauseV, JoinKind,
    OrderKeyV, QueryV, SourceClauseV, UnnestClauseV,
};
use super::clause_tokens::{
    agg_toks, aggregate_toks, aggs_toks, beside, block_toks, by_toks, clause_codes, comma_toks,
    conjunct_toks, distinct_toks, flat, flat_at, flat_stands, join_toks, join_word, joins_toks,
    let_toks, lets_toks, limit_toks, order_key_toks, orders_toks, query_toks, regular_agg,
    regular_aggregate, regular_alias, regular_block, regular_field, regular_join, regular_let,
    regular_query, regular_select, regular_source, regular_unnest, select_item_toks, select_toks,
    selects_toks, source_toks, starts, starts_close, suffix_toks, unnest_toks, unnests_toks,
    where_toks,
};
use super::format::{ends_in_dot, joins_words, level};
use super::layout_parse::{
    expr_reads, first_tok, list_reads, operand_pieces, operand_reads, wrapped,
};
use super::layout_tokens::{
    closes, leaves_dot, list_toks, name_tok, path_reads, path_toks, regular, stands, stands_parts,
    toks,
};
use super::numbers_read::{digits_read, index_reads_back};
use super::syntax::{
    agg_item, agg_items, aggregate_block, aggregate_clause, alias, alias_let, alias_lets, condition,
    default_clause, expr_list, field_sets, group_clause, join_clause, join_head, joins, kind,
    let_clause, limit_clause, limit_value, or_expr, order_clause, order_key, order_keys, path,
    query, query_groups, query_output, query_rows, select_clause, select_fields, source_clause,
    unnest_clause, unnests, whole_query, word,
};
use crate::text::decimal_text;

verus! {

/// An expression reads back where it ends.
proof fn whole_expr(t: Seq<TokAt>, i: int, e: ExprV)
    requires
        regular(e),
        stands(t, i, toks(e)),
        closes(kind(t, i + toks(e).len())),
        ends_in_dot(e) ==> leaves_dot(kind(t, i + toks(e).len())),
    ensures
        or_expr(t, i) == Ok::<(ExprV, int), QueryFault>((e, i + toks(e).len())),
        toks(e).len() > 0,
{
    first_tok(e);
    expr_reads(t, i, e, 0);
}

#[verifier::spinoff_prover]
proof fn source_reads(t: Seq<TokAt>, i: int, c: SourceClauseV)
    requires
        regular_source(c.path),
        regular_alias(c.alias),
        stands(t, i, source_toks(c)),
    ensures
        source_clause(t, i + 1) == Ok::<(SourceClauseV, int), QueryFault>(
            (c, i + source_toks(c).len()),
        ),
        word(t, i, kw::FROM@),
        source_toks(c).len() > 1,
{
    let f = seq![Tok::Ident(kw::FROM@)];
    let p = path_toks(c.path);
    let a = seq![Tok::Ident(kw::AS@), Tok::Ident(c.alias)];
    stands_parts(t, i, f + p, a);
    stands_parts(t, i, f, p);
    let k = i + 1 + p.len();
    assert(t[i + 0].kind == f[0]);
    assert(t[k + 0].kind == a[0]);
    assert(t[k + 1].kind == a[1]);
    index_reads_back(c.path);
    path_reads(t, i + 1, c.path, false);
    reveal(source_clause);
    reveal(path);
}

#[verifier::spinoff_prover]
#[verifier::rlimit(40)]
proof fn join_reads(t: Seq<TokAt>, i: int, c: JoinClauseV)
    requires
        regular_join(c),
        stands(t, i, join_toks(c)),
        closes(kind(t, i + join_toks(c).len())),
    ensures
        join_head(t, i) == Ok::<(Option<JoinKind>, int), QueryFault>(
            (Some(c.kind), i + join_word(c.kind).len()),
        ),
        join_clause(t, i + join_word(c.kind).len(), c.kind) == Ok::<(JoinClauseV, int), QueryFault>(
            (c, i + join_toks(c).len()),
        ),
        join_toks(c).len() > join_word(c.kind).len(),
        starts(1, join_toks(c)[0]),
{
    clause_codes();
    let f = join_word(c.kind);
    let p = path_toks(c.path);
    let a = seq![Tok::Ident(kw::AS@), Tok::Ident(c.alias), Tok::Ident(kw::ON@)];
    stands_parts(t, i, f + p + a, toks(c.on));
    stands_parts(t, i, f + p, a);
    stands_parts(t, i, f, p);
    let j = i + f.len();
    let k = j + p.len();
    assert(t[i + 0].kind == f[0]);
    if c.kind is Left {
        assert(t[i + 1].kind == f[1]);
    }
    assert(t[k + 0].kind == a[0]);
    assert(t[k + 1].kind == a[1]);
    assert(t[k + 2].kind == a[2]);
    index_reads_back(c.path);
    path_reads(t, j, c.path, false);
    whole_expr(t, k + 3, c.on);
    assert(join_toks(c)[0] == f[0]);
    reveal(join_clause);
    reveal(path);
    reveal(or_expr);
}

/// The joins of a query read back, from join `n` on.
#[verifier::spinoff_prover]
proof fn joins_read(t: Seq<TokAt>, i: int, v: Seq<JoinClauseV>, n: int)
    requires
        forall|k: int| 0 <= k < v.len() ==> regular_join(#[trigger] v[k]),
        0 <= n <= v.len(),
        stands(t, i, flat(joins_toks(v))),
        starts(2, kind(t, i + flat(joins_toks(v)).len())),
    ensures
        joins(t, v.take(n), i + flat_at(joins_toks(v), n)) == Ok::<
            (Seq<JoinClauseV>, int),
            QueryFault,
        >((v, i + flat(joins_toks(v)).len())),
        starts(1, kind(t, i + flat_at(joins_toks(v), n))),
    decreases v.len() - n,
{
    let p = joins_toks(v);
    clause_codes();
    if n == v.len() {
        assert(p.take(n) =~= p);
        assert(v.take(n) =~= v);
        reveal(joins);
    } else {
        flat_stands(t, i, p, n);
        joins_read(t, i, v, n + 1);
        let at = i + flat_at(p, n);
        starts_close(1, kind(t, at + p[n].len()));
        join_reads(t, at, v[n]);
        assert(t[at + 0].kind == p[n][0]);
        assert(v.take(n).push(v[n]) =~= v.take(n + 1));
        reveal_with_fuel(joins, 2);
        reveal(join_clause);
    }
}

#[verifier::spinoff_prover]
proof fn unnest_reads(t: Seq<TokAt>, i: int, u: UnnestClauseV)
    requires
        regular_unnest(u),
        stands(t, i, unnest_toks(u)),
    ensures
        word(t, i, kw::UNNEST@),
        unnest_clause(t, i + 1) == Ok::<(UnnestClauseV, int), QueryFault>(
            (u, i + unnest_toks(u).len()),
        ),
        unnest_toks(u).len() > 1,
        unnest_toks(u)[0] == Tok::Ident(kw::UNNEST@),
{
    clause_codes();
    operand_pieces(u.expr, 0, CompareOp::Eq);
    let paren = level(u.expr) < 0 || joins_words(u.expr);
    let f = seq![Tok::Ident(kw::UNNEST@)];
    let x = wrapped(u.expr, paren);
    let a = seq![Tok::Ident(kw::AS@), Tok::Ident(u.alias)];
    stands_parts(t, i, f + x, a);
    stands_parts(t, i, f, x);
    let k = i + 1 + x.len();
    assert(t[i + 0].kind == f[0]);
    assert(t[k + 0].kind == a[0]);
    assert(t[k + 1].kind == a[1]);
    operand_reads(t, i + 1, u.expr, paren, 0);
    reveal(unnest_clause);
    reveal(or_expr);
}

#[verifier::spinoff_prover]
proof fn unnests_read(t: Seq<TokAt>, i: int, v: Seq<UnnestClauseV>, n: int)
    requires
        forall|k: int| 0 <= k < v.len() ==> regular_unnest(#[trigger] v[k]),
        0 <= n <= v.len(),
        stands(t, i, flat(unnests_toks(v))),
        starts(3, kind(t, i + flat(unnests_toks(v)).len())),
    ensures
        unnests(t, v.take(n), i + flat_at(unnests_toks(v), n)) == Ok::<
            (Seq<UnnestClauseV>, int),
            QueryFault,
        >((v, i + flat(unnests_toks(v)).len())),
        starts(2, kind(t, i + flat_at(unnests_toks(v), n))),
    decreases v.len() - n,
{
    let p = unnests_toks(v);
    clause_codes();
    if n == v.len() {
        assert(p.take(n) =~= p);
        assert(v.take(n) =~= v);
        reveal(unnests);
    } else {
        flat_stands(t, i, p, n);
        unnests_read(t, i, v, n + 1);
        let at = i + flat_at(p, n);
        unnest_reads(t, at, v[n]);
        assert(t[at + 0].kind == p[n][0]);
        assert(v.take(n).push(v[n]) =~= v.take(n + 1));
        reveal_with_fuel(unnests, 2);
        reveal(unnest_clause);
    }
}

/// A condition reads back.
#[verifier::spinoff_prover]
proof fn where_reads(t: Seq<TokAt>, i: int, o: Option<ExprV>)
    requires
        o matches Some(e) ==> regular(e),
        stands(t, i, where_toks(o)),
        starts(4, kind(t, i + where_toks(o).len())),
    ensures
        condition(t, i, kw::WHERE@) == Ok::<(Option<ExprV>, int), QueryFault>(
            (o, i + where_toks(o).len()),
        ),
        starts(3, kind(t, i)),
{
    clause_codes();
    starts_close(4, kind(t, i + where_toks(o).len()));
    match o {
        Some(e) => {
            operand_pieces(e, 1, CompareOp::Eq);
            let f = seq![Tok::Ident(kw::WHERE@)];
            let x = conjunct_toks(e);
            stands_parts(t, i, f, x);
            assert(t[i + 0].kind == f[0]);
            if e is And {
                whole_expr(t, i + 1, e);
            } else {
                let paren = level(e) < 1 || joins_words(e);
                operand_reads(t, i + 1, e, paren, 0);
            }
            reveal(condition);
            reveal(or_expr);
        },
        None => {
            reveal(condition);
        },
    }
}

#[verifier::spinoff_prover]
proof fn having_reads(t: Seq<TokAt>, i: int, o: Option<ExprV>)
    requires
        o matches Some(e) ==> beside(e),
        stands(t, i, suffix_toks(Tok::Ident(kw::HAVING@), o)),
        starts(8, kind(t, i + suffix_toks(Tok::Ident(kw::HAVING@), o).len())),
    ensures
        condition(t, i, kw::HAVING@) == Ok::<(Option<ExprV>, int), QueryFault>(
            (o, i + suffix_toks(Tok::Ident(kw::HAVING@), o).len()),
        ),
        starts(7, kind(t, i)),
{
    clause_codes();
    let k = suffix_toks(Tok::Ident(kw::HAVING@), o);
    starts_close(8, kind(t, i + k.len()));
    match o {
        Some(e) => {
            let f = seq![Tok::Ident(kw::HAVING@)];
            stands_parts(t, i, f, toks(e));
            assert(t[i + 0].kind == f[0]);
            whole_expr(t, i + 1, e);
            reveal(condition);
            reveal(or_expr);
        },
        None => {
            reveal(condition);
        },
    }
}

#[verifier::spinoff_prover]
proof fn let_reads(t: Seq<TokAt>, i: int, l: AliasLetV, first: bool)
    requires
        regular_let(l),
        stands(t, i, let_toks(l, first)),
        closes(kind(t, i + let_toks(l, first).len())),
    ensures
        alias_let(t, i + 1) == Ok::<(AliasLetV, int), QueryFault>((l, i + let_toks(l, first).len())),
        let_toks(l, first).len() > 3,
        t[i].kind == if first {
            Tok::Ident(kw::LET@)
        } else {
            Tok::Comma
        },
{
    let h = seq![
        if first {
            Tok::Ident(kw::LET@)
        } else {
            Tok::Comma
        },
        Tok::Ident(l.name),
        Tok::Assign,
    ];
    stands_parts(t, i, h, toks(l.expr));
    assert(t[i + 0].kind == h[0]);
    assert(t[i + 1].kind == h[1]);
    assert(t[i + 2].kind == h[2]);
    whole_expr(t, i + 3, l.expr);
    reveal(alias_let);
    reveal(or_expr);
}

#[verifier::spinoff_prover]
proof fn lets_read(t: Seq<TokAt>, i: int, v: Seq<AliasLetV>, n: int)
    requires
        forall|k: int| 0 <= k < v.len() ==> regular_let(#[trigger] v[k]),
        0 <= n < v.len(),
        stands(t, i, flat(lets_toks(v))),
        starts(5, kind(t, i + flat(lets_toks(v)).len())),
    ensures
        alias_lets(t, v.take(n), i + flat_at(lets_toks(v), n) + 1) == Ok::<
            (Seq<AliasLetV>, int),
            QueryFault,
        >((v, i + flat(lets_toks(v)).len())),
        kind(t, i + flat_at(lets_toks(v), n)) == if n == 0 {
            Tok::Ident(kw::LET@)
        } else {
            Tok::Comma
        },
    decreases v.len() - n,
{
    let p = lets_toks(v);
    flat_stands(t, i, p, n);
    let at = i + flat_at(p, n);
    assert(v.take(n).push(v[n]) =~= v.take(n + 1));
    if n + 1 == v.len() {
        starts_close(5, kind(t, at + p[n].len()));
        let_reads(t, at, v[n], n == 0);
        assert(v.take(n + 1) =~= v);
        reveal(alias_lets);
        reveal(alias_let);
    } else {
        lets_read(t, i, v, n + 1);
        let_reads(t, at, v[n], n == 0);
        reveal_with_fuel(alias_lets, 2);
        reveal(alias_let);
    }
}

#[verifier::spinoff_prover]
proof fn let_clause_reads(t: Seq<TokAt>, i: int, v: Seq<AliasLetV>)
    requires
        forall|k: int| 0 <= k < v.len() ==> regular_let(#[trigger] v[k]),
        stands(t, i, flat(lets_toks(v))),
        starts(5, kind(t, i + flat(lets_toks(v)).len())),
    ensures
        let_clause(t, i) == Ok::<(Seq<AliasLetV>, int), QueryFault>(
            (v, i + flat(lets_toks(v)).len()),
        ),
        starts(4, kind(t, i)),
{
    clause_codes();
    let p = lets_toks(v);
    if v.len() == 0 {
        assert(p =~= Seq::empty());
        assert(v =~= Seq::empty());
        reveal(let_clause);
    } else {
        flat_stands(t, i, p, 0);
        lets_read(t, i, v, 0);
        assert(v.take(0) =~= Seq::empty());
        reveal(let_clause);
        reveal(alias_lets);
    }
}

#[verifier::spinoff_prover]
proof fn order_key_reads(t: Seq<TokAt>, i: int, x: OrderKeyV)
    requires
        beside(x.expr),
        stands(t, i, order_key_toks(x)),
        starts(10, kind(t, i + order_key_toks(x).len())) || kind(t, i + order_key_toks(x).len())
            == Tok::Comma,
    ensures
        order_key(t, i) == Ok::<(OrderKeyV, int), QueryFault>((x, i + order_key_toks(x).len())),
        order_key_toks(x).len() > 0,
{
    clause_codes();
    let e = toks(x.expr);
    let end = i + order_key_toks(x).len();
    if kind(t, end) != Tok::Comma {
        starts_close(10, kind(t, end));
    }
    if x.desc {
        let d = seq![Tok::Ident(kw::DESC@)];
        stands_parts(t, i, e, d);
        assert(t[i + e.len() + 0].kind == d[0]);
    } else {
        assert(order_key_toks(x) =~= e);
    }
    whole_expr(t, i, x.expr);
    reveal(order_key);
    reveal(or_expr);
}

/// The tokens in front of sort key `n`.
pub open spec fn order_front(n: int) -> Seq<Tok> {
    if n == 0 {
        seq![Tok::Ident(kw::ORDER@), Tok::Ident(kw::BY@)]
    } else {
        seq![Tok::Comma]
    }
}

#[verifier::spinoff_prover]
proof fn orders_read(t: Seq<TokAt>, i: int, v: Seq<OrderKeyV>, n: int)
    requires
        forall|k: int| 0 <= k < v.len() ==> beside((#[trigger] v[k]).expr),
        0 <= n < v.len(),
        stands(t, i, flat(orders_toks(v))),
        starts(10, kind(t, i + flat(orders_toks(v)).len())),
    ensures
        order_keys(t, v.take(n), i + flat_at(orders_toks(v), n) + order_front(n).len()) == Ok::<
            (Seq<OrderKeyV>, int),
            QueryFault,
        >((v, i + flat(orders_toks(v)).len())),
        stands(t, i + flat_at(orders_toks(v), n), order_front(n)),
    decreases v.len() - n,
{
    let p = orders_toks(v);
    flat_stands(t, i, p, n);
    let at = i + flat_at(p, n);
    let f = order_front(n);
    assert(p[n] == f + order_key_toks(v[n]));
    stands_parts(t, at, f, order_key_toks(v[n]));
    assert(v.take(n).push(v[n]) =~= v.take(n + 1));
    if n + 1 == v.len() {
        order_key_reads(t, at + f.len(), v[n]);
        assert(v.take(n + 1) =~= v);
        reveal(order_keys);
        reveal(order_key);
    } else {
        orders_read(t, i, v, n + 1);
        let next = i + flat_at(p, n + 1);
        assert(t[next + 0].kind == order_front(n + 1)[0]);
        order_key_reads(t, at + f.len(), v[n]);
        reveal_with_fuel(order_keys, 2);
        reveal(order_key);
    }
}

#[verifier::spinoff_prover]
proof fn order_clause_reads(t: Seq<TokAt>, i: int, v: Seq<OrderKeyV>)
    requires
        forall|k: int| 0 <= k < v.len() ==> beside((#[trigger] v[k]).expr),
        stands(t, i, flat(orders_toks(v))),
        starts(10, kind(t, i + flat(orders_toks(v)).len())),
    ensures
        order_clause(t, i) == Ok::<(Seq<OrderKeyV>, int), QueryFault>(
            (v, i + flat(orders_toks(v)).len()),
        ),
        starts(9, kind(t, i)),
{
    clause_codes();
    let p = orders_toks(v);
    if v.len() == 0 {
        assert(p =~= Seq::empty());
        assert(v =~= Seq::empty());
        reveal(order_clause);
    } else {
        flat_stands(t, i, p, 0);
        orders_read(t, i, v, 0);
        let f = order_front(0);
        assert(t[i + 0].kind == f[0]);
        assert(t[i + 1].kind == f[1]);
        assert(v.take(0) =~= Seq::empty());
        reveal(order_clause);
        reveal(order_keys);
    }
}

#[verifier::spinoff_prover]
proof fn limit_reads(t: Seq<TokAt>, i: int, o: Option<u64>)
    requires
        stands(t, i, limit_toks(o)),
        kind(t, i + limit_toks(o).len()) == Tok::Eof,
    ensures
        limit_clause(t, i) == Ok::<(Option<u64>, int), QueryFault>((o, i + limit_toks(o).len())),
        starts(10, kind(t, i)),
{
    clause_codes();
    if let Some(n) = o {
        let k = limit_toks(o);
        assert(t[i + 0].kind == k[0]);
        assert(t[i + 1].kind == k[1]);
        digits_read(decimal_text(n as nat), n as nat);
        super::numbers_read::decimal_digits(n as nat);
        assert(decimal_text(n as nat)[0] != '-');
        assert(limit_value(decimal_text(n as nat)) == Some(n));
    }
}

/// A name in front of a colon.
proof fn name_stands(t: Seq<TokAt>, i: int, n: Seq<char>, e: Seq<Tok>)
    requires
        stands(t, i, seq![name_tok(n), Tok::Colon] + e),
    ensures
        super::syntax::name(t, i, "expected field name in `select { ... }`"@) == Ok::<
            (Seq<char>, int),
            QueryFault,
        >((n, i + 1)),
        super::syntax::name(t, i, "expected a name identifier"@) == Ok::<
            (Seq<char>, int),
            QueryFault,
        >((n, i + 1)),
        kind(t, i) != Tok::RBrace,
        kind(t, i + 1) == Tok::Colon,
        stands(t, i + 2, e),
{
    let h = seq![name_tok(n), Tok::Colon];
    stands_parts(t, i, h, e);
    assert(t[i + 0].kind == h[0]);
    assert(t[i + 1].kind == h[1]);
}

#[verifier::spinoff_prover]
proof fn selects_read(t: Seq<TokAt>, i: int, v: Seq<(Seq<char>, ExprV)>, n: int)
    requires
        forall|k: int| 0 <= k < v.len() ==> regular_field(#[trigger] v[k]),
        0 <= n < v.len(),
        stands(t, i, flat(selects_toks(v, v.len()))),
        kind(t, i + flat(selects_toks(v, v.len())).len()) == Tok::RBrace,
    ensures
        select_fields(t, v.take(n), i + flat_at(selects_toks(v, v.len()), n)) == Ok::<
            (Seq<(Seq<char>, ExprV)>, int),
            QueryFault,
        >((v, i + flat(selects_toks(v, v.len())).len())),
    decreases v.len() - n,
{
    let p = selects_toks(v, v.len());
    flat_stands(t, i, p, n);
    let at = i + flat_at(p, n);
    let f = v[n];
    let c = comma_toks(n, v.len());
    assert(p[n] == select_item_toks(f) + c);
    stands_parts(t, at, select_item_toks(f), c);
    name_stands(t, at, f.0, toks(f.1));
    let k = at + 2 + toks(f.1).len();
    assert(v.take(n).push(f) =~= v.take(n + 1));
    assert(regular_field(v[n]));
    if n + 1 == v.len() {
        whole_expr(t, at + 2, f.1);
        assert(v.take(n + 1) =~= v);
        reveal(select_fields);
        reveal(or_expr);
    } else {
        assert(t[k + 0].kind == c[0]);
        whole_expr(t, at + 2, f.1);
        selects_read(t, i, v, n + 1);
        reveal_with_fuel(select_fields, 2);
        reveal(or_expr);
    }
}

#[verifier::spinoff_prover]
proof fn select_reads(t: Seq<TokAt>, i: int, o: Option<Seq<(Seq<char>, ExprV)>>)
    requires
        o matches Some(v) ==> regular_select(v),
        stands(t, i, select_toks(o)),
        starts(9, kind(t, i + select_toks(o).len())),
    ensures
        select_clause(t, i) == Ok::<(Option<Seq<(Seq<char>, ExprV)>>, int), QueryFault>(
            (o, i + select_toks(o).len()),
        ),
        starts(8, kind(t, i)),
{
    clause_codes();
    match o {
        Some(v) => {
            let h = seq![Tok::Ident(kw::SELECT@), Tok::LBrace];
            let p = selects_toks(v, v.len());
            let z = seq![Tok::RBrace];
            stands_parts(t, i, h + flat(p), z);
            stands_parts(t, i, h, flat(p));
            assert(t[i + 0].kind == h[0]);
            assert(t[i + 1].kind == h[1]);
            assert(t[i + 2 + flat(p).len() + 0].kind == z[0]);
            flat_stands(t, i + 2, p, 0);
            selects_read(t, i + 2, v, 0);
            assert(v.take(0) =~= Seq::empty());
            reveal(select_clause);
            reveal(select_fields);
        },
        None => {
            reveal(select_clause);
        },
    }
}

#[verifier::spinoff_prover]
proof fn default_reads(t: Seq<TokAt>, i: int, o: Option<ExprV>)
    requires
        o matches Some(e) ==> regular(e),
        stands(t, i, suffix_toks(Tok::QuestionQuestion, o)),
        kind(t, i + suffix_toks(Tok::QuestionQuestion, o).len()) == Tok::Comma || kind(
            t,
            i + suffix_toks(Tok::QuestionQuestion, o).len(),
        ) == Tok::RBrace,
    ensures
        default_clause(t, i) == Ok::<(Option<ExprV>, int), QueryFault>(
            (o, i + suffix_toks(Tok::QuestionQuestion, o).len()),
        ),
        closes(kind(t, i)),
        !(kind(t, i) is Ident),
        leaves_dot(kind(t, i)),
{
    match o {
        Some(e) => {
            let f = seq![Tok::QuestionQuestion];
            stands_parts(t, i, f, toks(e));
            assert(t[i + 0].kind == f[0]);
            whole_expr(t, i + 1, e);
            reveal(default_clause);
            reveal(or_expr);
        },
        None => {
            reveal(default_clause);
        },
    }
}

#[verifier::spinoff_prover]
proof fn agg_where_reads(t: Seq<TokAt>, i: int, o: Option<ExprV>)
    requires
        o matches Some(e) ==> beside(e),
        stands(t, i, suffix_toks(Tok::Ident(kw::WHERE@), o)),
        closes(kind(t, i + suffix_toks(Tok::Ident(kw::WHERE@), o).len())),
        !(kind(t, i + suffix_toks(Tok::Ident(kw::WHERE@), o).len()) is Ident),
    ensures
        condition(t, i, kw::WHERE@) == Ok::<(Option<ExprV>, int), QueryFault>(
            (o, i + suffix_toks(Tok::Ident(kw::WHERE@), o).len()),
        ),
        closes(kind(t, i)),
{
    clause_codes();
    match o {
        Some(e) => {
            let f = seq![Tok::Ident(kw::WHERE@)];
            stands_parts(t, i, f, toks(e));
            assert(t[i + 0].kind == f[0]);
            whole_expr(t, i + 1, e);
            reveal(condition);
            reveal(or_expr);
        },
        None => {
            reveal(condition);
        },
    }
}

#[verifier::spinoff_prover]
#[verifier::rlimit(40)]
proof fn agg_item_reads(t: Seq<TokAt>, i: int, x: AggBlockItemV)
    requires
        regular_agg(x),
        stands(t, i, agg_toks(x)),
        kind(t, i + agg_toks(x).len()) == Tok::Comma || kind(t, i + agg_toks(x).len())
            == Tok::RBrace,
    ensures
        agg_item(t, i) == Ok::<(AggBlockItemV, int), QueryFault>((x, i + agg_toks(x).len())),
        kind(t, i) != Tok::RBrace,
        agg_toks(x).len() > 0,
{
    let a = seq![name_tok(x.name), Tok::Colon] + toks(x.output);
    let b = suffix_toks(Tok::Ident(kw::WHERE@), x.where_pred);
    let c = suffix_toks(Tok::QuestionQuestion, x.default);
    stands_parts(t, i, a + b, c);
    stands_parts(t, i, a, b);
    name_stands(t, i, x.name, toks(x.output));
    let j1 = i + a.len();
    let j2 = j1 + b.len();
    default_reads(t, j2, x.default);
    agg_where_reads(t, j1, x.where_pred);
    whole_expr(t, i + 2, x.output);
    reveal(agg_item);
    reveal(or_expr);
    reveal(condition);
    reveal(default_clause);
}

#[verifier::spinoff_prover]
proof fn aggs_read(t: Seq<TokAt>, i: int, v: Seq<AggBlockItemV>, n: int)
    requires
        forall|k: int| 0 <= k < v.len() ==> regular_agg(#[trigger] v[k]),
        0 <= n < v.len(),
        stands(t, i, flat(aggs_toks(v, v.len()))),
        kind(t, i + flat(aggs_toks(v, v.len())).len()) == Tok::RBrace,
    ensures
        agg_items(t, v.take(n), i + flat_at(aggs_toks(v, v.len()), n)) == Ok::<
            (Seq<AggBlockItemV>, int),
            QueryFault,
        >((v, i + flat(aggs_toks(v, v.len())).len())),
    decreases v.len() - n,
{
    let p = aggs_toks(v, v.len());
    flat_stands(t, i, p, n);
    let at = i + flat_at(p, n);
    let x = v[n];
    let c = comma_toks(n, v.len());
    assert(p[n] == agg_toks(x) + c);
    stands_parts(t, at, agg_toks(x), c);
    let k = at + agg_toks(x).len();
    assert(v.take(n).push(x) =~= v.take(n + 1));
    if n + 1 == v.len() {
        agg_item_reads(t, at, x);
        assert(v.take(n + 1) =~= v);
        reveal(agg_items);
        reveal(agg_item);
    } else {
        assert(t[k + 0].kind == c[0]);
        agg_item_reads(t, at, x);
        aggs_read(t, i, v, n + 1);
        reveal_with_fuel(agg_items, 2);
        reveal(agg_item);
    }
}

#[verifier::spinoff_prover]
proof fn by_reads(t: Seq<TokAt>, i: int, b: AggregateBlockV)
    requires
        regular_block(b),
        stands(t, i, by_toks(b)),
        starts(7, kind(t, i + by_toks(b).len())),
    ensures
        group_clause(t, i) == Ok::<((Seq<ExprV>, bool), int), QueryFault>(
            ((b.group_by, b.rollup), i + by_toks(b).len()),
        ),
{
    clause_codes();
    let v = b.group_by;
    let l = list_toks(v);
    starts_close(7, kind(t, i + by_toks(b).len()));
    if v.len() == 0 {
        assert(v =~= Seq::empty());
        reveal(group_clause);
    } else if b.rollup {
        let h = seq![Tok::Ident(kw::BY@), Tok::Ident(kw::ROLLUP@), Tok::LParen];
        let z = seq![Tok::RParen];
        stands_parts(t, i, h + l, z);
        stands_parts(t, i, h, l);
        assert(t[i + 0].kind == h[0]);
        assert(t[i + 1].kind == h[1]);
        assert(t[i + 2].kind == h[2]);
        assert(t[i + 3 + l.len() + 0].kind == z[0]);
        list_front(v);
        list_reads(t, i + 3, v, 0);
        reveal(group_clause);
        reveal(expr_list);
    } else {
        let h = seq![Tok::Ident(kw::BY@)];
        stands_parts(t, i, h, l);
        assert(t[i + 0].kind == h[0]);
        list_front(v);
        assert(t[i + 1 + 0].kind == l[0]);
        list_reads(t, i + 1, v, 0);
        reveal(group_clause);
        reveal(expr_list);
    }
}

/// The first item of a list stands at its start.
proof fn list_front(v: Seq<ExprV>)
    requires
        v.len() > 0,
        super::layout_tokens::regular_all(v),
    ensures
        super::layout_parse::item_at(v, 0) == 0,
        v.take(0) == Seq::<ExprV>::empty(),
        list_toks(v).len() > 0,
{
    assert(v.take(0) =~= Seq::empty());
    first_tok(v.last());
}

#[verifier::spinoff_prover]
#[verifier::rlimit(40)]
proof fn block_reads(t: Seq<TokAt>, i: int, b: AggregateBlockV)
    requires
        regular_block(b),
        stands(t, i, block_toks(b)),
        starts(7, kind(t, i + block_toks(b).len())),
    ensures
        aggregate_block(t, i + 1) == Ok::<(AggregateBlockV, int), QueryFault>(
            (b, i + block_toks(b).len()),
        ),
        kind(t, i) == Tok::Ident(kw::AGGREGATE@),
{
    let v = b.reductions;
    let h = seq![Tok::Ident(kw::AGGREGATE@), Tok::LBrace];
    let p = aggs_toks(v, v.len());
    let z = seq![Tok::RBrace];
    stands_parts(t, i, h + flat(p) + z, by_toks(b));
    stands_parts(t, i, h + flat(p), z);
    stands_parts(t, i, h, flat(p));
    assert(t[i + 0].kind == h[0]);
    assert(t[i + 1].kind == h[1]);
    let k = i + 2 + flat(p).len();
    assert(t[k + 0].kind == z[0]);
    flat_stands(t, i + 2, p, 0);
    aggs_read(t, i + 2, v, 0);
    assert(v.take(0) =~= Seq::empty());
    by_reads(t, k + 1, b);
    reveal(aggregate_block);
    reveal(agg_items);
    reveal(group_clause);
}

#[verifier::spinoff_prover]
proof fn aggregate_reads(t: Seq<TokAt>, i: int, o: Option<AggregateClauseV>)
    requires
        regular_aggregate(o),
        stands(t, i, aggregate_toks(o)),
        starts(7, kind(t, i + aggregate_toks(o).len())),
    ensures
        aggregate_clause(t, i) == Ok::<(Option<AggregateClauseV>, int), QueryFault>(
            (o, i + aggregate_toks(o).len()),
        ),
        starts(6, kind(t, i)),
{
    clause_codes();
    starts_close(7, kind(t, i + aggregate_toks(o).len()));
    match o {
        Some(AggregateClauseV::Block(b)) => {
            block_reads(t, i, b);
            reveal(aggregate_clause);
            reveal(aggregate_block);
        },
        Some(AggregateClauseV::Group(g)) => {
            let h = seq![Tok::Ident(kw::COLLECT@), Tok::Ident(kw::BY@)];
            stands_parts(t, i, h, toks(g.key));
            assert(t[i + 0].kind == h[0]);
            assert(t[i + 1].kind == h[1]);
            whole_expr(t, i + 2, g.key);
            reveal(aggregate_clause);
            reveal(or_expr);
        },
        None => {
            reveal(aggregate_clause);
        },
    }
}

#[verifier::spinoff_prover]
proof fn distinct_reads(t: Seq<TokAt>, i: int, d: bool)
    requires
        stands(t, i, distinct_toks(d)),
        starts(6, kind(t, i + distinct_toks(d).len())),
    ensures
        word(t, i, kw::DISTINCT@) == d,
        starts(5, kind(t, i)),
{
    clause_codes();
    if d {
        assert(t[i + 0].kind == distinct_toks(d)[0]);
    }
}

/// The tokens of the last clauses.
pub open spec fn output_toks(q: QueryV) -> Seq<Tok> {
    select_toks(q.project) + (flat(orders_toks(q.order_by)) + limit_toks(q.limit))
}

/// The tokens from the aliases on.
pub open spec fn groups_toks(q: QueryV) -> Seq<Tok> {
    flat(lets_toks(q.alias_lets)) + (distinct_toks(q.distinct) + (aggregate_toks(q.aggregate) + (
    suffix_toks(Tok::Ident(kw::HAVING@), q.having) + output_toks(q))))
}

#[verifier::spinoff_prover]
proof fn output_reads(t: Seq<TokAt>, i: int, q: QueryV, p: QueryV)
    requires
        regular_query(q),
        stands(t, i, output_toks(q)),
        kind(t, i + output_toks(q).len()) == Tok::Eof,
    ensures
        query_output(t, p, i) == Ok::<(QueryV, int), QueryFault>(
            (
                (QueryV { project: q.project, order_by: q.order_by, limit: q.limit, ..p }),
                i + output_toks(q).len(),
            ),
        ),
        starts(8, kind(t, i)),
{
    let a = select_toks(q.project);
    let b = flat(orders_toks(q.order_by));
    let c = limit_toks(q.limit);
    stands_parts(t, i, a, b + c);
    stands_parts(t, i + a.len(), b, c);
    limit_reads(t, i + a.len() + b.len(), q.limit);
    order_clause_reads(t, i + a.len(), q.order_by);
    select_reads(t, i, q.project);
    reveal(query_output);
    reveal(select_clause);
    reveal(order_clause);
}

#[verifier::spinoff_prover]
#[verifier::rlimit(40)]
proof fn groups_read(t: Seq<TokAt>, i: int, q: QueryV, p: QueryV)
    requires
        regular_query(q),
        stands(t, i, groups_toks(q)),
        kind(t, i + groups_toks(q).len()) == Tok::Eof,
        p == (QueryV {
            alias_lets: Seq::empty(),
            distinct: false,
            aggregate: None,
            having: None,
            project: None,
            order_by: Seq::empty(),
            limit: None,
            ..q
        }),
    ensures
        query_groups(t, p, i) == Ok::<(QueryV, int), QueryFault>((q, i + groups_toks(q).len())),
        starts(4, kind(t, i)),
{
    let a = flat(lets_toks(q.alias_lets));
    let b = distinct_toks(q.distinct);
    let c = aggregate_toks(q.aggregate);
    let d = suffix_toks(Tok::Ident(kw::HAVING@), q.having);
    let e = output_toks(q);
    stands_parts(t, i, a, b + (c + (d + e)));
    let i1 = i + a.len();
    stands_parts(t, i1, b, c + (d + e));
    let i2 = i1 + b.len();
    stands_parts(t, i2, c, d + e);
    let i3 = i2 + c.len();
    stands_parts(t, i3, d, e);
    let i4 = i3 + d.len();
    let r = QueryV {
        alias_lets: q.alias_lets,
        distinct: q.distinct,
        aggregate: q.aggregate,
        having: q.having,
        ..p
    };
    output_reads(t, i4, q, r);
    having_reads(t, i3, q.having);
    aggregate_reads(t, i2, q.aggregate);
    distinct_reads(t, i1, q.distinct);
    let_clause_reads(t, i, q.alias_lets);
    reveal(query_groups);
    reveal(let_clause);
    reveal(aggregate_clause);
    reveal(condition);
    reveal(query_output);
}

/// The tokens behind the source.
pub open spec fn after_source(q: QueryV) -> Seq<Tok> {
    flat(joins_toks(q.joins)) + (flat(unnests_toks(q.unnests)) + (where_toks(q.where_clause)
        + groups_toks(q)))
}

#[verifier::spinoff_prover]
#[verifier::rlimit(40)]
proof fn rows_read(t: Seq<TokAt>, i: int, q: QueryV)
    requires
        regular_query(q),
        stands(t, i, source_toks(q.source) + after_source(q)),
        kind(t, i + (source_toks(q.source) + after_source(q)).len()) == Tok::Eof,
    ensures
        query_rows(t, q.field_sets, i + 1) == Ok::<(QueryV, int), QueryFault>(
            (q, i + (source_toks(q.source) + after_source(q)).len()),
        ),
        word(t, i, kw::FROM@),
{
    let a = source_toks(q.source);
    let b = flat(joins_toks(q.joins));
    let c = flat(unnests_toks(q.unnests));
    let d = where_toks(q.where_clause);
    let e = groups_toks(q);
    stands_parts(t, i, a, b + (c + (d + e)));
    let i1 = i + a.len();
    stands_parts(t, i1, b, c + (d + e));
    let i2 = i1 + b.len();
    stands_parts(t, i2, c, d + e);
    let i3 = i2 + c.len();
    stands_parts(t, i3, d, e);
    let i4 = i3 + d.len();
    let p = QueryV {
        alias_lets: Seq::empty(),
        distinct: false,
        aggregate: None,
        having: None,
        project: None,
        order_by: Seq::empty(),
        limit: None,
        ..q
    };
    groups_read(t, i4, q, p);
    where_reads(t, i3, q.where_clause);
    from_start(joins_toks(q.joins));
    from_start(unnests_toks(q.unnests));
    assert(q.joins.take(0) =~= Seq::empty());
    assert(q.unnests.take(0) =~= Seq::empty());
    unnests_read(t, i2, q.unnests, 0);
    joins_read(t, i1, q.joins, 0);
    source_reads(t, i, q.source);
    reveal(query_rows);
    reveal(source_clause);
    reveal(joins);
    reveal(unnests);
    reveal(condition);
    reveal(query_groups);
}

proof fn from_start(p: Seq<Seq<Tok>>)
    ensures
        flat_at(p, 0) == 0,
{
    assert(p.take(0) =~= Seq::empty());
}

proof fn grouped(a: Seq<Tok>, b: Seq<Tok>, c: Seq<Tok>)
    ensures
        a + b + c == a + (b + c),
{
    assert(a + b + c =~= a + (b + c));
}

#[verifier::spinoff_prover]
proof fn toks_in_order(q: QueryV)
    ensures
        query_toks(q) == source_toks(q.source) + after_source(q),
{
    let a = source_toks(q.source);
    let b = flat(joins_toks(q.joins));
    let c = flat(unnests_toks(q.unnests));
    let d = where_toks(q.where_clause);
    let e = flat(lets_toks(q.alias_lets));
    let f = distinct_toks(q.distinct);
    let g = aggregate_toks(q.aggregate);
    let h = suffix_toks(Tok::Ident(kw::HAVING@), q.having);
    let j = select_toks(q.project);
    let k = flat(orders_toks(q.order_by));
    let l = limit_toks(q.limit);
    grouped(a + b + c + d + e + f + g + h + j, k, l);
    grouped(a + b + c + d + e + f + g + h, j, k + l);
    grouped(a + b + c + d + e + f + g, h, j + (k + l));
    grouped(a + b + c + d + e + f, g, h + (j + (k + l)));
    grouped(a + b + c + d + e, f, g + (h + (j + (k + l))));
    grouped(a + b + c + d, e, f + (g + (h + (j + (k + l)))));
    grouped(a + b + c, d, e + (f + (g + (h + (j + (k + l))))));
    grouped(a + b, c, d + (e + (f + (g + (h + (j + (k + l)))))));
    grouped(a, b, c + (d + (e + (f + (g + (h + (j + (k + l))))))));
}

/// The tokens of a query read back.
#[verifier::spinoff_prover]
pub proof fn query_reads(t: Seq<TokAt>, q: QueryV)
    requires
        regular_query(q),
        stands(t, 0, query_toks(q)),
        kind(t, query_toks(q).len() as int) == Tok::Eof,
    ensures
        whole_query(t) == Ok::<QueryV, QueryFault>(q),
{
    clause_codes();
    toks_in_order(q);
    rows_read(t, 0, q);
    assert(q.field_sets =~= Seq::empty());
    reveal(query);
    reveal(query_rows);
    reveal(field_sets);
}

} // verus!
