//! The lexer reads the clauses of a query's layout as their tokens.
use vstd::prelude::*;

use super::super::canonical::name_text;
use super::super::grammar::kw;
use super::super::lexer::{ends_value, Tok};
use super::ast::{
    AggBlockItemV, AggregateBlockV, AggregateClauseV, AliasLetV, ExprV, JoinClauseV, JoinKind,
    OrderKeyV, QueryV, SourceClauseV, UnnestClauseV,
};
use super::format::{
    agg_item_text, agg_lines, aggregate_text, beside_word, block_text, conjuncts_text, expr_text,
    exprs_text, having_text, join_text, joins_text, joins_words, let_text, lets_text, level,
    limit_text, line_end, order_key_text, order_text, path_text, query_text, select_field_text,
    select_lines, select_text, starts_signed, suffix, term_text, unnest_text, unnests_text,
    value_block, where_text,
};
use super::clause_tokens::{
    agg_toks, aggregate_toks, aggs_toks, beside, by_toks, clause_idents, comma_toks, conjunct_toks,
    distinct_toks, flat, join_toks, join_word, joins_toks, let_toks, lets_toks, limit_toks,
    order_key_toks, orders_toks, query_toks, regular_agg, regular_aggregate, regular_alias,
    regular_block, regular_field, regular_join, regular_let, regular_name, regular_query,
    regular_select, regular_source, regular_unnest, select_item_toks, select_toks, selects_toks,
    source_toks, suffix_toks, unnest_toks, unnests_toks, where_toks,
};
use super::layout_exprs::{
    gives_comma, gives_expr, gives_head, gives_list, gives_operand, operand_texts, wrapped_text,
};
use super::layout_parse::{operand_pieces, wrapped};
use super::layout_reads::{
    blank, cut, digits_numeral, double_texts, gives, gives_blank, gives_join, gives_mark,
    gives_name, gives_number, gives_path, gives_spaced_mark, gives_spaced_word, gives_word,
    joining_idents, value_after,
};
use super::layout_tokens::{beside_toks, list_toks, name_tok, path_toks, regular, toks};
use super::readback::{has, has_parts, ident_text};
use super::super::ast::CompareOp;
use crate::text::decimal_text;

verus! {

/// The texts between the parts of a query, word by word.
#[verifier::spinoff_prover]
pub proof fn clause_texts()
    ensures
        "\njoin "@ == seq!['\n'] + kw::JOIN@ + seq![' '],
        "\nleft join "@ == seq!['\n'] + kw::LEFT@ + seq![' '] + (kw::JOIN@ + seq![' ']),
        " as "@ == seq![' '] + kw::AS@ + seq![' '],
        "\n  on "@ == seq!['\n', ' ', ' '] + kw::ON@ + seq![' '],
        "\nunnest "@ == seq!['\n'] + kw::UNNEST@ + seq![' '],
        "\nwhere "@ == seq!['\n'] + kw::WHERE@ + seq![' '],
        "\nand "@ == seq!['\n'] + kw::AND@ + seq![' '],
        "\nlet "@ == seq!['\n'] + kw::LET@ + seq![' '],
        ",\n    "@ == seq![','] + seq!['\n', ' ', ' ', ' ', ' '],
        " = "@ == seq![' '] + seq!['='] + seq![' '],
        "\ndistinct"@ == seq!['\n'] + kw::DISTINCT@ + Seq::<char>::empty(),
        "\naggregate {\n"@ == seq!['\n'] + kw::AGGREGATE@ + seq![' '] + seq!['{', '\n'],
        "}"@ == seq!['}'],
        " by rollup("@ == seq![' '] + kw::BY@ + seq![' '] + (kw::ROLLUP@ + seq!['(']),
        " by "@ == seq![' '] + kw::BY@ + seq![' '],
        "\ncollect by "@ == seq!['\n'] + kw::COLLECT@ + seq![' '] + (kw::BY@ + seq![' ']),
        "\nhaving "@ == seq!['\n'] + kw::HAVING@ + seq![' '],
        "\nselect {\n"@ == seq!['\n'] + kw::SELECT@ + seq![' '] + seq!['{', '\n'],
        "\norder by "@ == seq!['\n'] + kw::ORDER@ + seq![' '] + (kw::BY@ + seq![' ']),
        "\nlimit "@ == seq!['\n'] + kw::LIMIT@ + seq![' '],
        " desc"@ == seq![' '] + kw::DESC@ + Seq::<char>::empty(),
        ": "@ == seq![':', ' '],
        "  "@ == seq![' ', ' '],
        ",\n"@ == seq![',', '\n'],
        "\n"@ == seq!['\n'],
        " where "@ == seq![' '] + kw::WHERE@ + seq![' '],
        " ?? "@ == seq![' '] + seq!['?', '?'] + seq![' '],
        "from "@ == Seq::<char>::empty() + kw::FROM@ + seq![' '],
        ", "@ == seq![',', ' '],
        ")"@ == seq![')'],
        " as "@.len() == 4,
{
    reveal_strlit("join");
    reveal_strlit("left");
    reveal_strlit("as");
    reveal_strlit("on");
    reveal_strlit("unnest");
    reveal_strlit("where");
    reveal_strlit("and");
    reveal_strlit("let");
    reveal_strlit("distinct");
    reveal_strlit("aggregate");
    reveal_strlit("by");
    reveal_strlit("rollup");
    reveal_strlit("collect");
    reveal_strlit("having");
    reveal_strlit("select");
    reveal_strlit("order");
    reveal_strlit("limit");
    reveal_strlit("desc");
    reveal_strlit("from");
    reveal_strlit("\njoin ");
    assert("\njoin "@ =~= seq!['\n'] + kw::JOIN@ + seq![' ']);
    reveal_strlit("\nleft join ");
    assert("\nleft join "@ =~= seq!['\n'] + kw::LEFT@ + seq![' '] + (kw::JOIN@ + seq![' ']));
    reveal_strlit(" as ");
    assert(" as "@ =~= seq![' '] + kw::AS@ + seq![' ']);
    reveal_strlit("\n  on ");
    assert("\n  on "@ =~= seq!['\n', ' ', ' '] + kw::ON@ + seq![' ']);
    reveal_strlit("\nunnest ");
    assert("\nunnest "@ =~= seq!['\n'] + kw::UNNEST@ + seq![' ']);
    reveal_strlit("\nwhere ");
    assert("\nwhere "@ =~= seq!['\n'] + kw::WHERE@ + seq![' ']);
    reveal_strlit("\nand ");
    assert("\nand "@ =~= seq!['\n'] + kw::AND@ + seq![' ']);
    reveal_strlit("\nlet ");
    assert("\nlet "@ =~= seq!['\n'] + kw::LET@ + seq![' ']);
    reveal_strlit(",\n    ");
    assert(",\n    "@ =~= seq![','] + seq!['\n', ' ', ' ', ' ', ' ']);
    reveal_strlit(" = ");
    assert(" = "@ =~= seq![' '] + seq!['='] + seq![' ']);
    reveal_strlit("\ndistinct");
    assert("\ndistinct"@ =~= seq!['\n'] + kw::DISTINCT@ + Seq::<char>::empty());
    reveal_strlit("\naggregate {\n");
    assert("\naggregate {\n"@ =~= seq!['\n'] + kw::AGGREGATE@ + seq![' '] + seq!['{', '\n']);
    reveal_strlit("}");
    assert("}"@ =~= seq!['}']);
    reveal_strlit(" by rollup(");
    assert(" by rollup("@ =~= seq![' '] + kw::BY@ + seq![' '] + (kw::ROLLUP@ + seq!['(']));
    reveal_strlit(" by ");
    assert(" by "@ =~= seq![' '] + kw::BY@ + seq![' ']);
    reveal_strlit("\ncollect by ");
    assert("\ncollect by "@ =~= seq!['\n'] + kw::COLLECT@ + seq![' '] + (kw::BY@ + seq![' ']));
    reveal_strlit("\nhaving ");
    assert("\nhaving "@ =~= seq!['\n'] + kw::HAVING@ + seq![' ']);
    reveal_strlit("\nselect {\n");
    assert("\nselect {\n"@ =~= seq!['\n'] + kw::SELECT@ + seq![' '] + seq!['{', '\n']);
    reveal_strlit("\norder by ");
    assert("\norder by "@ =~= seq!['\n'] + kw::ORDER@ + seq![' '] + (kw::BY@ + seq![' ']));
    reveal_strlit("\nlimit ");
    assert("\nlimit "@ =~= seq!['\n'] + kw::LIMIT@ + seq![' ']);
    reveal_strlit(" desc");
    assert(" desc"@ =~= seq![' '] + kw::DESC@ + Seq::<char>::empty());
    reveal_strlit(": ");
    assert(": "@ =~= seq![':', ' ']);
    reveal_strlit("  ");
    assert("  "@ =~= seq![' ', ' ']);
    reveal_strlit(",\n");
    assert(",\n"@ =~= seq![',', '\n']);
    reveal_strlit("\n");
    assert("\n"@ =~= seq!['\n']);
    reveal_strlit(" where ");
    assert(" where "@ =~= seq![' '] + kw::WHERE@ + seq![' ']);
    reveal_strlit(" ?? ");
    assert(" ?? "@ =~= seq![' '] + seq!['?', '?'] + seq![' ']);
    reveal_strlit("from ");
    assert("from "@ =~= Seq::<char>::empty() + kw::FROM@ + seq![' ']);
    reveal_strlit(", ");
    assert(", "@ =~= seq![',', ' ']);
    reveal_strlit(")");
    assert(")"@ =~= seq![')']);
}

/// What follows joins on.
proof fn gives_then(s: Seq<char>, i: int, av: bool, a: Seq<Tok>, j: int, b: Seq<Tok>, l: int, c: Seq<Tok>)
    requires
        gives(s, i, av, a, j),
        gives(s, j, value_after(a, av), b, l),
        c =~= a + b,
    ensures
        gives(s, i, av, c, l),
{
    gives_join(s, i, av, a, j, b, l);
}

/// Two words, white space before the first one.
proof fn gives_pair(s: Seq<char>, i: int, pre: Seq<char>, a: Seq<char>, b: Seq<char>, av: bool)
    requires
        has(s, i, pre + a + seq![' '] + (b + seq![' '])),
        blank(pre),
        ident_text(a),
        ident_text(b),
    ensures
        gives(s, i, av, seq![Tok::Ident(a), Tok::Ident(b)], i + pre.len() + a.len() + b.len() + 2),
{
    let sp = seq![' '];
    let none = Seq::<char>::empty();
    assert(blank(sp));
    assert(blank(none));
    has_parts(s, i, pre + a + sp, b + sp);
    gives_spaced_word(s, i, pre, a, sp, av);
    let k = i + pre.len() + a.len() + 1;
    assert(none + b + sp =~= b + sp);
    gives_spaced_word(s, k, none, b, sp, true);
    gives_then(
        s,
        i,
        av,
        seq![Tok::Ident(a)],
        k,
        seq![Tok::Ident(b)],
        k + b.len() + 1,
        seq![Tok::Ident(a), Tok::Ident(b)],
    );
}

/// A word and an opening brace at the end of the line.
proof fn gives_open(s: Seq<char>, i: int, a: Seq<char>, av: bool)
    requires
        has(s, i, seq!['\n'] + a + seq![' '] + seq!['{', '\n']),
        ident_text(a),
    ensures
        gives(s, i, av, seq![Tok::Ident(a), Tok::LBrace], i + a.len() + 4),
{
    let sp = seq![' '];
    let nl = seq!['\n'];
    assert(blank(sp));
    assert(blank(nl));
    assert(seq!['{', '\n'] =~= seq!['{'] + nl);
    has_parts(s, i, nl + a + sp, seq!['{'] + nl);
    gives_spaced_word(s, i, nl, a, sp, av);
    let k = i + a.len() + 2;
    has_parts(s, k, seq!['{'], nl);
    gives_mark(s, k, '{', true);
    gives_blank(s, k + 1, nl, false);
    gives_then(s, i, av, seq![Tok::Ident(a)], k, seq![Tok::LBrace], k + 1, seq![Tok::Ident(a), Tok::LBrace]);
    gives_then(
        s,
        i,
        av,
        seq![Tok::Ident(a), Tok::LBrace],
        k + 1,
        Seq::empty(),
        k + 2,
        seq![Tok::Ident(a), Tok::LBrace],
    );
}

/// `as` and an alias.
proof fn gives_alias(s: Seq<char>, i: int, a: Seq<char>, av: bool)
    requires
        has(s, i, " as "@ + a),
        ident_text(a),
        cut(s, i + 4 + a.len()),
    ensures
        gives(s, i, av, seq![Tok::Ident(kw::AS@), Tok::Ident(a)], i + 4 + a.len()),
        " as "@.len() == 4,
{
    clause_texts();
    clause_idents();
    let sp = seq![' '];
    assert(blank(sp));
    reveal_strlit(" as ");
    has_parts(s, i, " as "@, a);
    gives_spaced_word(s, i, sp, kw::AS@, sp, av);
    gives_word(s, i + 4, a, true);
    gives_then(
        s,
        i,
        av,
        seq![Tok::Ident(kw::AS@)],
        i + 4,
        seq![Tok::Ident(a)],
        i + 4 + a.len(),
        seq![Tok::Ident(kw::AS@), Tok::Ident(a)],
    );
}

/// A word in front of an expression.
#[verifier::spinoff_prover]
proof fn gives_worded(s: Seq<char>, i: int, pre: Seq<char>, x: Seq<char>, e: ExprV, paren: bool, av: bool)
    requires
        has(s, i, pre + x + seq![' '] + wrapped_text(e, paren)),
        blank(pre),
        ident_text(x),
        regular(e),
        paren || !starts_signed(e),
        cut(s, i + pre.len() + x.len() + 1 + wrapped_text(e, paren).len()),
    ensures
        gives(
            s,
            i,
            av,
            seq![Tok::Ident(x)] + wrapped(e, paren),
            i + pre.len() + x.len() + 1 + wrapped_text(e, paren).len(),
        ),
{
    let sp = seq![' '];
    assert(blank(sp));
    has_parts(s, i, pre + x + sp, wrapped_text(e, paren));
    gives_spaced_word(s, i, pre, x, sp, av);
    let k = i + pre.len() + x.len() + 1;
    gives_operand(s, k, e, paren, true);
    gives_join(s, i, av, seq![Tok::Ident(x)], k, wrapped(e, paren), k + wrapped_text(e, paren).len());
}

#[verifier::spinoff_prover]
pub proof fn gives_source(s: Seq<char>, i: int, c: SourceClauseV, av: bool)
    requires
        regular_source(c.path),
        regular_alias(c.alias),
        has(s, i, "from "@ + path_text(c.path) + " as "@ + c.alias),
        cut(s, i + ("from "@ + path_text(c.path) + " as "@ + c.alias).len()),
    ensures
        gives(
            s,
            i,
            av,
            source_toks(c),
            i + ("from "@ + path_text(c.path) + " as "@ + c.alias).len(),
        ),
{
    clause_texts();
    clause_idents();
    let sp = seq![' '];
    assert(blank(sp));
    let f = "from "@;
    let p = path_text(c.path);
    let a = " as "@ + c.alias;
    assert(f + p + " as "@ + c.alias =~= f + p + a);
    has_parts(s, i, f + p, a);
    has_parts(s, i, f, p);
    let j = i + f.len();
    let k = j + p.len();
    assert(s[k + 0] == a[0]);
    gives_spaced_word(s, i, Seq::empty(), kw::FROM@, sp, av);
    gives_path(s, j, c.path, true);
    let head = seq![Tok::Ident(kw::FROM@)];
    gives_join(s, i, av, head, j, path_toks(c.path), k);
    gives_alias(s, k, c.alias, value_after(head + path_toks(c.path), av));
    gives_join(
        s,
        i,
        av,
        head + path_toks(c.path),
        k,
        seq![Tok::Ident(kw::AS@), Tok::Ident(c.alias)],
        k + a.len(),
    );
}

/// What stands in front of a join's path.
pub open spec fn join_front(k: JoinKind) -> Seq<char> {
    match k {
        JoinKind::Inner => "\njoin "@,
        JoinKind::Left => "\nleft join "@,
    }
}

#[verifier::spinoff_prover]
proof fn gives_join_front(s: Seq<char>, i: int, k: JoinKind, av: bool)
    requires
        has(s, i, join_front(k)),
    ensures
        gives(s, i, av, join_word(k), i + join_front(k).len()),
{
    clause_texts();
    clause_idents();
    let sp = seq![' '];
    let nl = seq!['\n'];
    assert(blank(sp));
    assert(blank(nl));
    match k {
        JoinKind::Inner => {
            gives_spaced_word(s, i, nl, kw::JOIN@, sp, av);
        },
        JoinKind::Left => {
            gives_pair(s, i, nl, kw::LEFT@, kw::JOIN@, av);
        },
    }
}

#[verifier::spinoff_prover]
proof fn gives_on(s: Seq<char>, i: int, e: ExprV, av: bool)
    requires
        beside(e),
        has(s, i, "\n  on "@ + expr_text(e)),
        cut(s, i + ("\n  on "@ + expr_text(e)).len()),
    ensures
        gives(
            s,
            i,
            av,
            seq![Tok::Ident(kw::ON@)] + toks(e),
            i + ("\n  on "@ + expr_text(e)).len(),
        ),
        ("\n  on "@ + expr_text(e))[0] == '\n',
        ("\n  on "@ + expr_text(e)).len() > 0,
{
    clause_texts();
    clause_idents();
    let pre = seq!['\n', ' ', ' '];
    assert(blank(pre));
    gives_worded(s, i, pre, kw::ON@, e, false, av);
}

#[verifier::spinoff_prover]
proof fn join_parts(c: JoinClauseV)
    ensures
        join_text(c) == join_front(c.kind) + path_text(c.path) + (" as "@ + c.alias) + ("\n  on "@
            + expr_text(c.on)),
        join_toks(c) == join_word(c.kind) + path_toks(c.path) + seq![
            Tok::Ident(kw::AS@),
            Tok::Ident(c.alias),
        ] + (seq![Tok::Ident(kw::ON@)] + toks(c.on)),
{
    let a = join_front(c.kind) + path_text(c.path);
    let x = expr_text(c.on);
    assert(a + " as "@ + c.alias + "\n  on "@ + x =~= a + (" as "@ + c.alias) + ("\n  on "@ + x));
    let b = join_word(c.kind) + path_toks(c.path);
    let y = toks(c.on);
    let as_alias = seq![Tok::Ident(kw::AS@), Tok::Ident(c.alias)];
    let on = seq![Tok::Ident(kw::ON@)];
    assert(b + seq![Tok::Ident(kw::AS@), Tok::Ident(c.alias), Tok::Ident(kw::ON@)] + y =~= b + as_alias
        + (on + y));
}

#[verifier::spinoff_prover]
#[verifier::rlimit(30)]
proof fn gives_join_clause(s: Seq<char>, i: int, c: JoinClauseV, av: bool)
    requires
        regular_join(c),
        has(s, i, join_text(c)),
        cut(s, i + join_text(c).len()),
    ensures
        gives(s, i, av, join_toks(c), i + join_text(c).len()),
{
    let f = join_front(c.kind);
    let p = path_text(c.path);
    let a = " as "@ + c.alias;
    let on = "\n  on "@ + expr_text(c.on);
    join_parts(c);
    has_four(s, i, f, p, a, on);
    let j = i + f.len();
    let k = j + p.len();
    let l = k + a.len();
    let head = join_word(c.kind);
    let two = head + path_toks(c.path);
    let als = seq![Tok::Ident(kw::AS@), Tok::Ident(c.alias)];
    gives_on(s, l, c.on, value_after(two + als, av));
    assert(s[l + 0] == on[0]);
    reveal_strlit(" as ");
    assert(s[k + 0] == a[0]);
    gives_join_front(s, i, c.kind, av);
    gives_path(s, j, c.path, value_after(head, av));
    gives_join(s, i, av, head, j, path_toks(c.path), k);
    gives_alias(s, k, c.alias, value_after(two, av));
    gives_join(s, i, av, two, k, als, l);
    gives_join(s, i, av, two + als, l, seq![Tok::Ident(kw::ON@)] + toks(c.on), l + on.len());
}

#[verifier::spinoff_prover]
pub proof fn gives_joins(s: Seq<char>, i: int, v: Seq<JoinClauseV>, av: bool)
    requires
        forall|k: int| 0 <= k < v.len() ==> regular_join(#[trigger] v[k]),
        has(s, i, joins_text(v)),
        cut(s, i + joins_text(v).len()),
    ensures
        gives(s, i, av, flat(joins_toks(v)), i + joins_text(v).len()),
    decreases v.len(),
{
    let p = joins_toks(v);
    if v.len() == 0 {
        assert(p =~= Seq::empty());
        gives_blank(s, i, Seq::empty(), av);
    } else {
        let less = v.drop_last();
        let q = joins_toks(less);
        let a = joins_text(less);
        let b = join_text(v.last());
        assert(joins_text(v) =~= a + b);
        has_parts(s, i, a, b);
        let j = i + a.len();
        clause_texts();
        assert(s[j + 0] == b[0]);
        assert forall|k: int| 0 <= k < less.len() implies regular_join(less[k]) by {
            assert(less[k] == v[k]);
        }
        gives_joins(s, i, less, av);
        assert(p.drop_last() =~= q);
        gives_join_clause(s, j, v.last(), value_after(flat(q), av));
        gives_join(s, i, av, flat(q), j, p.last(), j + b.len());
    }
}

#[verifier::spinoff_prover]
proof fn gives_unnest(s: Seq<char>, i: int, u: UnnestClauseV, av: bool)
    requires
        regular_unnest(u),
        has(s, i, unnest_text(u)),
        cut(s, i + unnest_text(u).len()),
    ensures
        gives(s, i, av, unnest_toks(u), i + unnest_text(u).len()),
{
    clause_texts();
    clause_idents();
    let sp = seq![' '];
    let nl = seq!['\n'];
    assert(blank(sp));
    assert(blank(nl));
    operand_texts(u.expr, 0, CompareOp::Eq);
    operand_pieces(u.expr, 0, CompareOp::Eq);
    let paren = level(u.expr) < 0 || joins_words(u.expr);
    let x = wrapped_text(u.expr, paren);
    let a = " as "@ + u.alias;
    let f = nl + kw::UNNEST@ + sp;
    assert(unnest_text(u) =~= f + x + a);
    has_parts(s, i, f + x, a);
    let k = i + f.len() + x.len();
    assert(s[k + 0] == a[0]);
    gives_worded(s, i, nl, kw::UNNEST@, u.expr, paren, av);
    let head = seq![Tok::Ident(kw::UNNEST@)] + wrapped(u.expr, paren);
    gives_alias(s, k, u.alias, value_after(head, av));
    gives_join(
        s,
        i,
        av,
        head,
        k,
        seq![Tok::Ident(kw::AS@), Tok::Ident(u.alias)],
        k + a.len(),
    );
}

#[verifier::spinoff_prover]
pub proof fn gives_unnests(s: Seq<char>, i: int, v: Seq<UnnestClauseV>, av: bool)
    requires
        forall|k: int| 0 <= k < v.len() ==> regular_unnest(#[trigger] v[k]),
        has(s, i, unnests_text(v)),
        cut(s, i + unnests_text(v).len()),
    ensures
        gives(s, i, av, flat(unnests_toks(v)), i + unnests_text(v).len()),
    decreases v.len(),
{
    let p = unnests_toks(v);
    if v.len() == 0 {
        assert(p =~= Seq::empty());
        gives_blank(s, i, Seq::empty(), av);
    } else {
        let less = v.drop_last();
        let q = unnests_toks(less);
        let a = unnests_text(less);
        let b = unnest_text(v.last());
        assert(unnests_text(v) =~= a + b);
        has_parts(s, i, a, b);
        let j = i + a.len();
        clause_texts();
        assert(s[j + 0] == b[0]);
        assert forall|k: int| 0 <= k < less.len() implies regular_unnest(less[k]) by {
            assert(less[k] == v[k]);
        }
        gives_unnests(s, i, less, av);
        assert(p.drop_last() =~= q);
        gives_unnest(s, j, v.last(), value_after(flat(q), av));
        gives_join(s, i, av, flat(q), j, p.last(), j + b.len());
    }
}

/// The conjuncts of a condition.
#[verifier::spinoff_prover]
#[verifier::rlimit(30)]
proof fn gives_conjuncts(s: Seq<char>, i: int, e: ExprV)
    requires
        regular(e),
        has(s, i, conjuncts_text(e)),
        cut(s, i + conjuncts_text(e).len()),
    ensures
        gives(s, i, true, conjunct_toks(e), i + conjuncts_text(e).len()),
    decreases e,
{
    clause_texts();
    joining_idents();
    let sp = seq![' '];
    let nl = seq!['\n'];
    assert(blank(sp));
    assert(blank(nl));
    match e {
        ExprV::And(l, r) => {
            operand_texts(*r, 2, CompareOp::Eq);
            operand_pieces(*r, 2, CompareOp::Eq);
            let paren = level(*r) < 2 || joins_words(*r);
            let a = conjuncts_text(*l);
            let b = nl + kw::AND@ + sp + wrapped_text(*r, paren);
            assert(regular(*l) && regular(*r));
            assert(!(*r is FieldSetCompare));
            assert(term_text(*r, 2, 4) == beside_word(*r, 2));
            assert(conjuncts_text(e) =~= a + b);
            has_parts(s, i, a, b);
            let j = i + a.len();
            assert(s[j + 0] == b[0]);
            gives_conjuncts(s, i, *l);
            let t = conjunct_toks(*l);
            assert(beside_toks(*l, 1) == t) by {
                assert(*l is And ==> level(*l) == 1 && !joins_words(*l));
            }
            gives_worded(s, j, nl, kw::AND@, *r, paren, value_after(t, true));
            gives_then(
                s,
                i,
                true,
                t,
                j,
                seq![Tok::Ident(kw::AND@)] + wrapped(*r, paren),
                j + b.len(),
                toks(e),
            );
        },
        _ => {
            assert(!(e is FieldSetCompare));
            operand_texts(e, 1, CompareOp::Eq);
            operand_pieces(e, 1, CompareOp::Eq);
            assert(term_text(e, 1, 6) == beside_word(e, 1));
            let paren = level(e) < 1 || joins_words(e);
            gives_operand(s, i, e, paren, true);
        },
    }
}

#[verifier::spinoff_prover]
pub proof fn gives_where(s: Seq<char>, i: int, o: Option<ExprV>, av: bool)
    requires
        o matches Some(e) ==> regular(e),
        has(s, i, where_text(o)),
        cut(s, i + where_text(o).len()),
    ensures
        gives(s, i, av, where_toks(o), i + where_text(o).len()),
{
    clause_texts();
    clause_idents();
    let sp = seq![' '];
    let nl = seq!['\n'];
    assert(blank(sp));
    assert(blank(nl));
    match o {
        Some(e) => {
            let f = nl + kw::WHERE@ + sp;
            let c = conjuncts_text(e);
            has_parts(s, i, f, c);
            gives_spaced_word(s, i, nl, kw::WHERE@, sp, av);
            gives_conjuncts(s, i + f.len(), e);
            gives_join(
                s,
                i,
                av,
                seq![Tok::Ident(kw::WHERE@)],
                i + f.len(),
                conjunct_toks(e),
                i + f.len() + c.len(),
            );
        },
        None => {
            gives_blank(s, i, Seq::empty(), av);
        },
    }
}

/// What stands in front of an alias.
pub open spec fn let_head(first: bool) -> Seq<char> {
    if first {
        "\nlet "@
    } else {
        ",\n    "@
    }
}

pub open spec fn let_head_tok(first: bool) -> Tok {
    if first {
        Tok::Ident(kw::LET@)
    } else {
        Tok::Comma
    }
}

#[verifier::spinoff_prover]
proof fn gives_let_head(s: Seq<char>, i: int, first: bool, av: bool)
    requires
        has(s, i, let_head(first)),
    ensures
        gives(s, i, av, seq![let_head_tok(first)], i + let_head(first).len()),
{
    clause_texts();
    clause_idents();
    let sp = seq![' '];
    let nl = seq!['\n'];
    assert(blank(sp));
    assert(blank(nl));
    if first {
        gives_spaced_word(s, i, nl, kw::LET@, sp, av);
    } else {
        let wide = seq!['\n', ' ', ' ', ' ', ' '];
        assert(blank(wide));
        has_parts(s, i, seq![','], wide);
        gives_mark(s, i, ',', av);
        gives_blank(s, i + 1, wide, false);
        gives_then(s, i, av, seq![Tok::Comma], i + 1, Seq::empty(), i + 6, seq![Tok::Comma]);
    }
}

proof fn let_parts(f: Seq<char>, l: AliasLetV, first: bool)
    ensures
        f + let_text(l) == f + l.name + " = "@ + expr_text(l.expr),
        let_toks(l, first) == seq![let_head_tok(first)] + seq![Tok::Ident(l.name), Tok::Assign] + toks(
            l.expr,
        ),
{
    assert(f + let_text(l) =~= f + l.name + " = "@ + expr_text(l.expr));
    assert(seq![let_head_tok(first)] + seq![Tok::Ident(l.name), Tok::Assign] =~= seq![
        let_head_tok(first),
        Tok::Ident(l.name),
        Tok::Assign,
    ]);
}

/// A name and an equals sign.
#[verifier::spinoff_prover]
proof fn gives_assigned(s: Seq<char>, i: int, n: Seq<char>, av: bool)
    requires
        ident_text(n),
        has(s, i, n),
        has(s, i + n.len(), " = "@),
    ensures
        gives(s, i, av, seq![Tok::Ident(n), Tok::Assign], i + n.len() + 3),
        " = "@.len() == 3,
{
    let k = i + n.len();
    reveal_strlit(" = ");
    assert(" = "@ =~= seq![' '] + seq!['='] + seq![' ']);
    assert(s[k + 0] == " = "@[0]);
    gives_word(s, i, n, av);
    gives_spaced_mark(s, k, seq!['='], Tok::Assign, true);
    let a = seq![Tok::Ident(n)];
    gives_then(s, i, av, a, k, seq![Tok::Assign], k + 3, seq![Tok::Ident(n), Tok::Assign]);
}

#[verifier::spinoff_prover]
proof fn gives_let(s: Seq<char>, i: int, l: AliasLetV, first: bool, av: bool)
    requires
        regular_let(l),
        has(s, i, let_head(first) + let_text(l)),
        cut(s, i + (let_head(first) + let_text(l)).len()),
    ensures
        gives(s, i, av, let_toks(l, first), i + (let_head(first) + let_text(l)).len()),
{
    let f = let_head(first);
    let x = expr_text(l.expr);
    let head = let_head_tok(first);
    let_parts(f, l, first);
    has_four(s, i, f, l.name, " = "@, x);
    let j = i + f.len();
    let m = j + l.name.len() + 3;
    gives_let_head(s, i, first, av);
    gives_assigned(s, j, l.name, ends_value(head));
    gives_let_value(s, i, l, first, j, m, av);
}

#[verifier::spinoff_prover]
proof fn gives_let_value(s: Seq<char>, i: int, l: AliasLetV, first: bool, j: int, m: int, av: bool)
    requires
        regular(l.expr),
        gives(s, i, av, seq![let_head_tok(first)], j),
        gives(
            s,
            j,
            ends_value(let_head_tok(first)),
            seq![Tok::Ident(l.name), Tok::Assign],
            m,
        ),
        has(s, m, expr_text(l.expr)),
        cut(s, m + expr_text(l.expr).len()),
    ensures
        gives(s, i, av, let_toks(l, first), m + expr_text(l.expr).len()),
{
    let a = seq![let_head_tok(first)];
    let b = seq![Tok::Ident(l.name), Tok::Assign];
    let_parts(Seq::empty(), l, first);
    gives_expr(s, m, l.expr, false);
    gives_join(s, i, av, a, j, b, m);
    assert((a + b).last() == Tok::Assign);
    gives_join(s, i, av, a + b, m, toks(l.expr), m + expr_text(l.expr).len());
}

#[verifier::spinoff_prover]
pub proof fn gives_lets(s: Seq<char>, i: int, v: Seq<AliasLetV>, av: bool)
    requires
        forall|k: int| 0 <= k < v.len() ==> regular_let(#[trigger] v[k]),
        has(s, i, lets_text(v)),
        cut(s, i + lets_text(v).len()),
    ensures
        gives(s, i, av, flat(lets_toks(v)), i + lets_text(v).len()),
    decreases v.len(),
{
    let p = lets_toks(v);
    if v.len() == 0 {
        assert(p =~= Seq::empty());
        gives_blank(s, i, Seq::empty(), av);
    } else {
        let less = v.drop_last();
        let q = lets_toks(less);
        let a = lets_text(less);
        let b = let_head(v.len() == 1) + let_text(v.last());
        assert(lets_text(v) =~= a + b);
        has_parts(s, i, a, b);
        let j = i + a.len();
        clause_texts();
        assert(s[j + 0] == b[0]);
        assert forall|k: int| 0 <= k < less.len() implies regular_let(less[k]) by {
            assert(less[k] == v[k]);
        }
        gives_lets(s, i, less, av);
        assert(p.drop_last() =~= q);
        gives_let(s, j, v.last(), v.len() == 1, value_after(flat(q), av));
        gives_join(s, i, av, flat(q), j, p.last(), j + b.len());
    }
}

/// The end of a line of a block.
proof fn gives_line_end(s: Seq<char>, i: int, k: int, n: nat, av: bool)
    requires
        has(s, i, line_end(k, n)),
    ensures
        gives(s, i, av, comma_toks(k, n), i + line_end(k, n).len()),
        line_end(k, n)[0] == ',' || line_end(k, n)[0] == '\n',
        line_end(k, n).len() > 0,
{
    clause_texts();
    let nl = seq!['\n'];
    assert(blank(nl));
    if k + 1 < n {
        assert(seq![',', '\n'] =~= seq![','] + nl);
        has_parts(s, i, seq![','], nl);
        gives_mark(s, i, ',', av);
        gives_blank(s, i + 1, nl, false);
        gives_then(s, i, av, seq![Tok::Comma], i + 1, Seq::empty(), i + 2, seq![Tok::Comma]);
    } else {
        gives_blank(s, i, nl, av);
    }
}

/// A name with a colon, and an expression.
#[verifier::spinoff_prover]
proof fn gives_entry(s: Seq<char>, i: int, n: Seq<char>, e: ExprV, av: bool)
    requires
        regular_name(n),
        regular(e),
        has(s, i, "  "@ + (name_text(n) + ": "@ + expr_text(e))),
        cut(s, i + ("  "@ + (name_text(n) + ": "@ + expr_text(e))).len()),
    ensures
        gives(
            s,
            i,
            av,
            seq![name_tok(n), Tok::Colon] + toks(e),
            i + ("  "@ + (name_text(n) + ": "@ + expr_text(e))).len(),
        ),
{
    clause_texts();
    let sp = seq![' '];
    assert(blank(sp));
    assert(blank(seq![' ', ' ']));
    let a = name_text(n);
    let x = expr_text(e);
    has_parts(s, i, "  "@, a + ": "@ + x);
    let j = i + 2;
    has_parts(s, j, a + ": "@, x);
    has_parts(s, j, a, ": "@);
    let k = j + a.len();
    assert(seq![':', ' '] =~= seq![':'] + sp);
    has_parts(s, k, seq![':'], sp);
    assert(s[k + 0] == ": "@[0]);
    gives_blank(s, i, "  "@, av);
    gives_name(s, j, n, av);
    gives_then(s, i, av, Seq::empty(), j, seq![name_tok(n)], k, seq![name_tok(n)]);
    gives_mark(s, k, ':', ends_value(name_tok(n)));
    gives_then(s, i, av, seq![name_tok(n)], k, seq![Tok::Colon], k + 1, seq![name_tok(n), Tok::Colon]);
    gives_blank(s, k + 1, sp, false);
    gives_then(
        s,
        i,
        av,
        seq![name_tok(n), Tok::Colon],
        k + 1,
        Seq::empty(),
        k + 2,
        seq![name_tok(n), Tok::Colon],
    );
    gives_expr(s, k + 2, e, false);
    gives_join(s, i, av, seq![name_tok(n), Tok::Colon], k + 2, toks(e), k + 2 + x.len());
}

#[verifier::spinoff_prover]
proof fn select_parts(v: Seq<(Seq<char>, ExprV)>, n: nat)
    requires
        v.len() > 0,
    ensures
        select_lines(v, n) == select_lines(v.drop_last(), n) + ("  "@ + (name_text(v.last().0) + ": "@
            + expr_text(v.last().1)) + line_end(v.len() - 1, n)),
        flat(selects_toks(v, n)) == flat(selects_toks(v.drop_last(), n)) + (seq![
            name_tok(v.last().0),
            Tok::Colon,
        ] + toks(v.last().1) + comma_toks(v.len() - 1, n)),
{
    let f = v.last();
    let a = select_lines(v.drop_last(), n);
    let b = select_field_text(f);
    let c = line_end(v.len() - 1, n);
    assert(b == name_text(f.0) + ": "@ + expr_text(f.1));
    assert(a + "  "@ + b + c =~= a + ("  "@ + b + c));
    let p = selects_toks(v, n);
    assert(p.drop_last() =~= selects_toks(v.drop_last(), n));
    assert(p.last() == select_item_toks(f) + comma_toks(v.len() - 1, n));
}

#[verifier::spinoff_prover]
pub proof fn gives_selects(s: Seq<char>, i: int, v: Seq<(Seq<char>, ExprV)>, n: nat, av: bool)
    requires
        forall|k: int| 0 <= k < v.len() ==> regular_field(#[trigger] v[k]),
        has(s, i, select_lines(v, n)),
    ensures
        gives(s, i, av, flat(selects_toks(v, n)), i + select_lines(v, n).len()),
    decreases v.len(),
{
    if v.len() == 0 {
        assert(selects_toks(v, n) =~= Seq::empty());
        gives_blank(s, i, Seq::empty(), av);
    } else {
        let less = v.drop_last();
        select_parts(v, n);
        let q = flat(selects_toks(less, n));
        let a = select_lines(less, n);
        let x = v.last().0;
        let e = v.last().1;
        let b = "  "@ + (name_text(x) + ": "@ + expr_text(e)) + line_end(v.len() - 1, n);
        has_parts(s, i, a, b);
        let j = i + a.len();
        assert forall|k: int| 0 <= k < less.len() implies regular_field(#[trigger] less[k]) by {
            assert(less[k] == v[k]);
        }
        gives_selects(s, i, less, n, av);
        assert(regular_field(v[v.len() - 1]));
        gives_line(s, j, x, e, v.len() - 1, n, value_after(q, av));
        let t = seq![name_tok(x), Tok::Colon] + toks(e) + comma_toks(v.len() - 1, n);
        gives_join(s, i, av, q, j, t, j + b.len());
    }
}

#[verifier::spinoff_prover]
proof fn gives_line(s: Seq<char>, i: int, x: Seq<char>, e: ExprV, k: int, n: nat, av: bool)
    requires
        regular_name(x),
        regular(e),
        has(s, i, "  "@ + (name_text(x) + ": "@ + expr_text(e)) + line_end(k, n)),
    ensures
        gives(
            s,
            i,
            av,
            seq![name_tok(x), Tok::Colon] + toks(e) + comma_toks(k, n),
            i + ("  "@ + (name_text(x) + ": "@ + expr_text(e)) + line_end(k, n)).len(),
        ),
{
    let a = "  "@ + (name_text(x) + ": "@ + expr_text(e));
    let b = line_end(k, n);
    let t = seq![name_tok(x), Tok::Colon] + toks(e);
    has_parts(s, i, a, b);
    let j = i + a.len();
    gives_line_end(s, j, k, n, value_after(t, av));
    assert(s[j + 0] == b[0]);
    gives_entry(s, i, x, e, av);
    gives_join(s, i, av, t, j, comma_toks(k, n), j + b.len());
}

#[verifier::spinoff_prover]
#[verifier::rlimit(60)]
proof fn gives_select_block(s: Seq<char>, i: int, v: Seq<(Seq<char>, ExprV)>, av: bool)
    requires
        forall|k: int| 0 <= k < v.len() ==> regular_field(#[trigger] v[k]),
        has(s, i, "\nselect {\n"@ + select_lines(v, v.len()) + "}"@),
    ensures
        gives(
            s,
            i,
            av,
            seq![Tok::Ident(kw::SELECT@), Tok::LBrace] + flat(selects_toks(v, v.len())) + seq![
                Tok::RBrace,
            ],
            i + ("\nselect {\n"@ + select_lines(v, v.len()) + "}"@).len(),
        ),
{
    let f = "\nselect {\n"@;
    let x = select_lines(v, v.len());
    let p = flat(selects_toks(v, v.len()));
    has_parts(s, i, f + x, "}"@);
    has_parts(s, i, f, x);
    let j = i + f.len();
    let k = j + x.len();
    gives_selects(s, j, v, v.len(), false);
    double_texts();
    reveal_strlit("}");
    gives_block(s, i, kw::SELECT@, f, p, k, av);
}

/// A block in braces.
#[verifier::spinoff_prover]
proof fn gives_block(s: Seq<char>, i: int, a: Seq<char>, f: Seq<char>, p: Seq<Tok>, k: int, av: bool)
    requires
        a == kw::SELECT@ && f == "\nselect {\n"@ || a == kw::AGGREGATE@ && f
            == "\naggregate {\n"@,
        has(s, i, f),
        gives(s, i + f.len(), false, p, k),
        has(s, k, "}"@),
    ensures
        gives(s, i, av, seq![Tok::Ident(a), Tok::LBrace] + p + seq![Tok::RBrace], k + 1),
{
    clause_texts();
    clause_idents();
    let head = seq![Tok::Ident(a), Tok::LBrace];
    gives_open(s, i, a, av);
    gives_join(s, i, av, head, i + f.len(), p, k);
    gives_mark(s, k, '}', value_after(head + p, av));
    gives_join(s, i, av, head + p, k, seq![Tok::RBrace], k + 1);
}

#[verifier::spinoff_prover]
pub proof fn gives_select(s: Seq<char>, i: int, o: Option<Seq<(Seq<char>, ExprV)>>, av: bool)
    requires
        o matches Some(v) ==> regular_select(v),
        has(s, i, select_text(o)),
    ensures
        gives(s, i, av, select_toks(o), i + select_text(o).len()),
{
    match o {
        Some(v) => {
            gives_select_block(s, i, v, av);
        },
        None => {
            gives_blank(s, i, Seq::empty(), av);
        },
    }
}

/// An optional expression behind a word or a mark.
#[verifier::spinoff_prover]
proof fn gives_suffix(s: Seq<char>, i: int, x: Seq<char>, k: Tok, o: Option<ExprV>, av: bool)
    requires
        o matches Some(e) ==> regular(e),
        x == " where "@ && k == Tok::Ident(kw::WHERE@) && (o matches Some(e) ==> !starts_signed(e))
            || x == " ?? "@ && k == Tok::QuestionQuestion,
        has(s, i, suffix(x, o)),
        cut(s, i + suffix(x, o).len()),
    ensures
        gives(s, i, av, suffix_toks(k, o), i + suffix(x, o).len()),
        cut(s, i),
{
    clause_texts();
    clause_idents();
    let sp = seq![' '];
    assert(blank(sp));
    match o {
        Some(e) => {
            let y = expr_text(e);
            has_parts(s, i, x, y);
            assert(s[i + 0] == x[0]);
            if k == Tok::QuestionQuestion {
                gives_spaced_mark(s, i, seq!['?', '?'], k, av);
            } else {
                gives_spaced_word(s, i, sp, kw::WHERE@, sp, av);
            }
            gives_expr(s, i + x.len(), e, ends_value(k));
            gives_join(s, i, av, seq![k], i + x.len(), toks(e), i + x.len() + y.len());
        },
        None => {
            gives_blank(s, i, Seq::empty(), av);
        },
    }
}

#[verifier::spinoff_prover]
proof fn agg_text_parts(x: AggBlockItemV, d: Seq<char>)
    requires
        regular_agg(x),
    ensures
        "  "@ + agg_item_text(x) + d == "  "@ + (name_text(x.name) + ": "@ + expr_text(x.output))
            + suffix(" where "@, x.where_pred) + suffix(" ?? "@, x.default) + d,
{
    assert(!(x.output is Object));
    assert(value_block(x.output, "  "@) == expr_text(x.output));
    let a = name_text(x.name) + ": "@ + expr_text(x.output);
    let b = suffix(" where "@, x.where_pred);
    let c = suffix(" ?? "@, x.default);
    assert(agg_item_text(x) == a + b + c);
    assert("  "@ + (a + b + c) =~= "  "@ + a + b + c);
}

proof fn suffix_cuts(s: Seq<char>, i: int, x: Seq<char>, o: Option<ExprV>)
    requires
        x == " where "@ || x == " ?? "@,
        has(s, i, suffix(x, o)),
        cut(s, i + suffix(x, o).len()),
    ensures
        cut(s, i),
{
    if let Some(e) = o {
        reveal_strlit(" where ");
        reveal_strlit(" ?? ");
        has_parts(s, i, x, expr_text(e));
        assert(s[i + 0] == x[0]);
    }
}

/// The parts of a line of an aggregate block.
#[verifier::spinoff_prover]
proof fn gives_agg_suffixes(s: Seq<char>, i: int, x: AggBlockItemV, t: Seq<Tok>, j: int, av: bool)
    requires
        regular_agg(x),
        gives(s, i, av, t, j),
        has(s, j, suffix(" where "@, x.where_pred)),
        has(s, j + suffix(" where "@, x.where_pred).len(), suffix(" ?? "@, x.default)),
        cut(
            s,
            j + suffix(" where "@, x.where_pred).len() + suffix(" ?? "@, x.default).len(),
        ),
    ensures
        gives(
            s,
            i,
            av,
            t + suffix_toks(Tok::Ident(kw::WHERE@), x.where_pred) + suffix_toks(
                Tok::QuestionQuestion,
                x.default,
            ),
            j + suffix(" where "@, x.where_pred).len() + suffix(" ?? "@, x.default).len(),
        ),
{
    let j2 = j + suffix(" where "@, x.where_pred).len();
    let j3 = j2 + suffix(" ?? "@, x.default).len();
    let w = suffix_toks(Tok::Ident(kw::WHERE@), x.where_pred);
    let z = suffix_toks(Tok::QuestionQuestion, x.default);
    gives_suffix(s, j2, " ?? "@, Tok::QuestionQuestion, x.default, value_after(t + w, av));
    gives_suffix(s, j, " where "@, Tok::Ident(kw::WHERE@), x.where_pred, value_after(t, av));
    gives_join(s, i, av, t, j, w, j2);
    gives_join(s, i, av, t + w, j2, z, j3);
}

proof fn has_four(s: Seq<char>, i: int, a: Seq<char>, b: Seq<char>, c: Seq<char>, d: Seq<char>)
    requires
        has(s, i, a + b + c + d),
    ensures
        has(s, i, a),
        has(s, i + a.len(), b),
        has(s, i + a.len() + b.len(), c),
        has(s, i + a.len() + b.len() + c.len(), d),
{
    has_parts(s, i, a + b + c, d);
    has_parts(s, i, a + b, c);
    has_parts(s, i, a, b);
}

/// A line of an aggregate block.
#[verifier::opaque]
pub open spec fn agg_line(x: AggBlockItemV, k: int, n: nat) -> Seq<char> {
    "  "@ + (name_text(x.name) + ": "@ + expr_text(x.output)) + suffix(" where "@, x.where_pred)
        + suffix(" ?? "@, x.default) + line_end(k, n)
}

#[verifier::spinoff_prover]
proof fn gives_agg(s: Seq<char>, i: int, x: AggBlockItemV, k: int, n: nat, av: bool)
    requires
        regular_agg(x),
        has(s, i, agg_line(x, k, n)),
    ensures
        gives(s, i, av, agg_toks(x) + comma_toks(k, n), i + agg_line(x, k, n).len()),
{
    let a = "  "@ + (name_text(x.name) + ": "@ + expr_text(x.output));
    let b = suffix(" where "@, x.where_pred);
    let c = suffix(" ?? "@, x.default);
    let d = line_end(k, n);
    assert(agg_line(x, k, n) == a + b + c + d) by {
        reveal(agg_line);
    }
    has_four(s, i, a, b, c, d);
    gives_agg_item(s, i, x, a, b, c, k, n, av);
    assert((a + b + c + d).len() == a.len() + b.len() + c.len() + d.len());
}

#[verifier::spinoff_prover]
#[verifier::rlimit(40)]
proof fn gives_agg_item(
    s: Seq<char>,
    i: int,
    x: AggBlockItemV,
    a: Seq<char>,
    b: Seq<char>,
    c: Seq<char>,
    k: int,
    n: nat,
    av: bool,
)
    requires
        regular_agg(x),
        a == "  "@ + (name_text(x.name) + ": "@ + expr_text(x.output)),
        b == suffix(" where "@, x.where_pred),
        c == suffix(" ?? "@, x.default),
        has(s, i, a),
        has(s, i + a.len(), b),
        has(s, i + a.len() + b.len(), c),
        has(s, i + a.len() + b.len() + c.len(), line_end(k, n)),
    ensures
        gives(
            s,
            i,
            av,
            agg_toks(x) + comma_toks(k, n),
            i + a.len() + b.len() + c.len() + line_end(k, n).len(),
        ),
{
    let d = line_end(k, n);
    let j1 = i + a.len();
    let j2 = j1 + b.len();
    let j3 = j2 + c.len();
    gives_line_end(s, j3, k, n, value_after(agg_toks(x), av));
    assert(s[j3 + 0] == d[0]);
    suffix_cuts(s, j2, " ?? "@, x.default);
    suffix_cuts(s, j1, " where "@, x.where_pred);
    gives_entry(s, i, x.name, x.output, av);
    let t = seq![name_tok(x.name), Tok::Colon] + toks(x.output);
    gives_agg_suffixes(s, i, x, t, j1, av);
    gives_join(s, i, av, agg_toks(x), j3, comma_toks(k, n), j3 + d.len());
}

#[verifier::spinoff_prover]
proof fn agg_parts(v: Seq<AggBlockItemV>, n: nat)
    requires
        v.len() > 0,
        regular_agg(v.last()),
    ensures
        agg_lines(v, n) == agg_lines(v.drop_last(), n) + agg_line(v.last(), v.len() - 1, n),
        flat(aggs_toks(v, n)) == flat(aggs_toks(v.drop_last(), n)) + (agg_toks(v.last()) + comma_toks(
            v.len() - 1,
            n,
        )),
{
    let a = agg_lines(v.drop_last(), n);
    let b = agg_item_text(v.last());
    let c = line_end(v.len() - 1, n);
    agg_text_parts(v.last(), c);
    reveal(agg_line);
    assert(a + "  "@ + b + c =~= a + ("  "@ + b + c));
    let p = aggs_toks(v, n);
    assert(p.drop_last() =~= aggs_toks(v.drop_last(), n));
}

#[verifier::spinoff_prover]
proof fn gives_aggs(s: Seq<char>, i: int, v: Seq<AggBlockItemV>, n: nat, av: bool)
    requires
        forall|k: int| 0 <= k < v.len() ==> regular_agg(#[trigger] v[k]),
        has(s, i, agg_lines(v, n)),
    ensures
        gives(s, i, av, flat(aggs_toks(v, n)), i + agg_lines(v, n).len()),
    decreases v.len(),
{
    if v.len() == 0 {
        assert(aggs_toks(v, n) =~= Seq::empty());
        gives_blank(s, i, Seq::empty(), av);
    } else {
        let less = v.drop_last();
        assert(regular_agg(v[v.len() - 1]));
        agg_parts(v, n);
        let q = flat(aggs_toks(less, n));
        let a = agg_lines(less, n);
        let b = agg_line(v.last(), v.len() - 1, n);
        has_parts(s, i, a, b);
        let j = i + a.len();
        assert forall|k: int| 0 <= k < less.len() implies regular_agg(#[trigger] less[k]) by {
            assert(less[k] == v[k]);
        }
        gives_aggs(s, i, less, n, av);
        gives_agg(s, j, v.last(), v.len() - 1, n, value_after(q, av));
        let t = agg_toks(v.last()) + comma_toks(v.len() - 1, n);
        gives_join(s, i, av, q, j, t, j + b.len());
    }
}

/// The keys behind an aggregate block.
pub open spec fn by_text(b: AggregateBlockV) -> Seq<char> {
    if b.group_by.len() == 0 {
        Seq::empty()
    } else if b.rollup {
        " by rollup("@ + exprs_text(b.group_by) + ")"@
    } else {
        " by "@ + exprs_text(b.group_by)
    }
}

#[verifier::spinoff_prover]
#[verifier::rlimit(40)]
proof fn gives_by(s: Seq<char>, i: int, b: AggregateBlockV, av: bool)
    requires
        regular_block(b),
        has(s, i, by_text(b)),
        cut(s, i + by_text(b).len()),
    ensures
        gives(s, i, av, by_toks(b), i + by_text(b).len()),
{
    clause_texts();
    clause_idents();
    let sp = seq![' '];
    assert(blank(sp));
    let v = b.group_by;
    let x = exprs_text(v);
    let l = list_toks(v);
    if v.len() == 0 {
        gives_blank(s, i, Seq::empty(), av);
    } else if b.rollup {
        let f = " by rollup("@;
        let h = kw::ROLLUP@ + seq!['('];
        has_parts(s, i, f + x, ")"@);
        has_parts(s, i, f, x);
        has_parts(s, i, sp + kw::BY@ + sp, h);
        let j = i + (sp + kw::BY@ + sp).len();
        let k = i + f.len();
        let m = k + x.len();
        assert(s[m + 0] == ")"@[0]);
        gives_spaced_word(s, i, sp, kw::BY@, sp, av);
        gives_head(s, j, kw::ROLLUP@, true);
        let two = seq![Tok::Ident(kw::ROLLUP@), Tok::LParen];
        let head = seq![Tok::Ident(kw::BY@), Tok::Ident(kw::ROLLUP@), Tok::LParen];
        gives_then(s, i, av, seq![Tok::Ident(kw::BY@)], j, two, k, head);
        gives_list(s, k, v, false);
        gives_join(s, i, av, head, k, l, m);
        gives_mark(s, m, ')', value_after(head + l, av));
        gives_join(s, i, av, head + l, m, seq![Tok::RParen], m + 1);
    } else {
        let f = " by "@;
        has_parts(s, i, f, x);
        let k = i + f.len();
        gives_spaced_word(s, i, sp, kw::BY@, sp, av);
        gives_list(s, k, v, true);
        gives_join(s, i, av, seq![Tok::Ident(kw::BY@)], k, l, k + x.len());
    }
}

#[verifier::spinoff_prover]
#[verifier::rlimit(40)]
pub proof fn gives_aggregate(s: Seq<char>, i: int, o: Option<AggregateClauseV>, av: bool)
    requires
        regular_aggregate(o),
        has(s, i, aggregate_text(o)),
        cut(s, i + aggregate_text(o).len()),
    ensures
        gives(s, i, av, aggregate_toks(o), i + aggregate_text(o).len()),
{
    match o {
        Some(AggregateClauseV::Block(b)) => {
            let v = b.reductions;
            let f = "\naggregate {\n"@;
            let x = agg_lines(v, v.len());
            let y = by_text(b);
            assert(aggregate_text(o) == block_text(b));
            assert(block_text(b) =~= f + x + "}"@ + y);
            has_parts(s, i, f + x + "}"@, y);
            has_parts(s, i, f + x, "}"@);
            has_parts(s, i, f, x);
            let j = i + f.len();
            let k = j + x.len();
            let p = flat(aggs_toks(v, v.len()));
            reveal_strlit("}");
            gives_aggs(s, j, v, v.len(), false);
            gives_block(s, i, kw::AGGREGATE@, f, p, k, av);
            let t = seq![Tok::Ident(kw::AGGREGATE@), Tok::LBrace] + p + seq![Tok::RBrace];
            gives_by(s, k + 1, b, value_after(t, av));
            gives_join(s, i, av, t, k + 1, by_toks(b), k + 1 + y.len());
        },
        Some(AggregateClauseV::Group(g)) => {
            clause_texts();
            clause_idents();
            let nl = seq!['\n'];
            assert(blank(nl));
            let f = "\ncollect by "@;
            let x = expr_text(g.key);
            has_parts(s, i, f, x);
            gives_pair(s, i, nl, kw::COLLECT@, kw::BY@, av);
            gives_expr(s, i + f.len(), g.key, true);
            gives_join(
                s,
                i,
                av,
                seq![Tok::Ident(kw::COLLECT@), Tok::Ident(kw::BY@)],
                i + f.len(),
                toks(g.key),
                i + f.len() + x.len(),
            );
        },
        None => {
            gives_blank(s, i, Seq::empty(), av);
        },
    }
}

#[verifier::spinoff_prover]
pub proof fn gives_having(s: Seq<char>, i: int, o: Option<ExprV>, av: bool)
    requires
        o matches Some(e) ==> beside(e),
        has(s, i, having_text(o)),
        cut(s, i + having_text(o).len()),
    ensures
        gives(s, i, av, suffix_toks(Tok::Ident(kw::HAVING@), o), i + having_text(o).len()),
{
    clause_texts();
    clause_idents();
    let nl = seq!['\n'];
    assert(blank(nl));
    match o {
        Some(e) => {
            assert(has(s, i, nl + kw::HAVING@ + seq![' '] + wrapped_text(e, false)));
            gives_worded(s, i, nl, kw::HAVING@, e, false, av);
            assert(wrapped(e, false) == toks(e));
        },
        None => {
            gives_blank(s, i, Seq::empty(), av);
        },
    }
}

#[verifier::spinoff_prover]
proof fn order_parts(v: Seq<OrderKeyV>)
    requires
        v.len() > 0,
    ensures
        order_text(v) == order_text(v.drop_last()) + (order_head(v.len() == 1) + order_key_text(v.last())),
        flat(orders_toks(v)) == flat(orders_toks(v.drop_last())) + (order_head_toks(v.len() == 1)
            + order_key_toks(v.last())),
{
    let a = order_text(v.drop_last());
    let b = order_key_text(v.last());
    assert(a + order_head(v.len() == 1) + b =~= a + (order_head(v.len() == 1) + b));
    let p = orders_toks(v);
    assert(p.drop_last() =~= orders_toks(v.drop_last()));
    assert(p.last() == order_head_toks(v.len() == 1) + order_key_toks(v.last()));
}

/// What stands in front of a sort key.
pub open spec fn order_head(first: bool) -> Seq<char> {
    if first {
        "\norder by "@
    } else {
        ", "@
    }
}

pub open spec fn order_head_toks(first: bool) -> Seq<Tok> {
    if first {
        seq![Tok::Ident(kw::ORDER@), Tok::Ident(kw::BY@)]
    } else {
        seq![Tok::Comma]
    }
}

#[verifier::spinoff_prover]
proof fn gives_order_key(s: Seq<char>, i: int, x: OrderKeyV, first: bool, av: bool)
    requires
        beside(x.expr),
        has(s, i, order_head(first) + order_key_text(x)),
        cut(s, i + (order_head(first) + order_key_text(x)).len()),
    ensures
        gives(
            s,
            i,
            av,
            order_head_toks(first) + order_key_toks(x),
            i + (order_head(first) + order_key_text(x)).len(),
        ),
        order_head(first).len() > 0,
        order_head(first)[0] == '\n' || order_head(first)[0] == ',',
{
    clause_texts();
    clause_idents();
    let sp = seq![' '];
    let nl = seq!['\n'];
    let none = Seq::<char>::empty();
    assert(blank(sp));
    assert(blank(nl));
    assert(blank(none));
    let f = order_head(first);
    let h = order_head_toks(first);
    let y = expr_text(x.expr);
    has_parts(s, i, f, order_key_text(x));
    let j = i + f.len();
    let k = j + y.len();
    if first {
        gives_pair(s, i, nl, kw::ORDER@, kw::BY@, av);
    } else {
        gives_comma(s, i, av);
    }
    gives_descending(s, i, x, h, j, av);
}

/// An expression and the direction behind it.
#[verifier::spinoff_prover]
proof fn gives_descending(s: Seq<char>, i: int, x: OrderKeyV, h: Seq<Tok>, j: int, av: bool)
    requires
        beside(x.expr),
        gives(s, i, av, h, j),
        has(s, j, order_key_text(x)),
        cut(s, j + order_key_text(x).len()),
    ensures
        gives(s, i, av, h + order_key_toks(x), j + order_key_text(x).len()),
{
    let y = expr_text(x.expr);
    let k = j + y.len();
    if x.desc {
        let sp = seq![' '];
        let none = Seq::<char>::empty();
        clause_texts();
        clause_idents();
        assert(blank(sp));
        assert(blank(none));
        has_parts(s, j, y, " desc"@);
        assert(s[k + 0] == " desc"@[0]);
        gives_expr(s, j, x.expr, value_after(h, av));
        gives_join(s, i, av, h, j, toks(x.expr), k);
        let d = seq![Tok::Ident(kw::DESC@)];
        gives_spaced_word(s, k, sp, kw::DESC@, none, value_after(h + toks(x.expr), av));
        gives_join(s, i, av, h + toks(x.expr), k, d, k + " desc"@.len());
        assert(h + toks(x.expr) + d =~= h + (toks(x.expr) + d));
    } else {
        gives_expr(s, j, x.expr, value_after(h, av));
        gives_join(s, i, av, h, j, toks(x.expr), k);
        assert(order_key_toks(x) =~= toks(x.expr));
    }
}

#[verifier::spinoff_prover]
pub proof fn gives_orders(s: Seq<char>, i: int, v: Seq<OrderKeyV>, av: bool)
    requires
        forall|k: int| 0 <= k < v.len() ==> beside((#[trigger] v[k]).expr),
        has(s, i, order_text(v)),
        cut(s, i + order_text(v).len()),
    ensures
        gives(s, i, av, flat(orders_toks(v)), i + order_text(v).len()),
    decreases v.len(),
{
    if v.len() == 0 {
        assert(orders_toks(v) =~= Seq::empty());
        gives_blank(s, i, Seq::empty(), av);
    } else {
        let less = v.drop_last();
        order_parts(v);
        let q = flat(orders_toks(less));
        let a = order_text(less);
        let first = v.len() == 1;
        let b = order_head(first) + order_key_text(v.last());
        has_parts(s, i, a, b);
        let j = i + a.len();
        assert forall|k: int| 0 <= k < less.len() implies beside((#[trigger] less[k]).expr) by {
            assert(less[k] == v[k]);
        }
        assert(beside(v[v.len() - 1].expr));
        gives_order_key(s, j, v.last(), first, value_after(q, av));
        assert(s[j + 0] == b[0]);
        gives_orders(s, i, less, av);
        let t = order_head_toks(first) + order_key_toks(v.last());
        gives_join(s, i, av, q, j, t, j + b.len());
    }
}

#[verifier::spinoff_prover]
pub proof fn gives_limit(s: Seq<char>, i: int, o: Option<u64>, av: bool)
    requires
        has(s, i, limit_text(o)),
        cut(s, i + limit_text(o).len()),
    ensures
        gives(s, i, av, limit_toks(o), i + limit_text(o).len()),
{
    clause_texts();
    clause_idents();
    let sp = seq![' '];
    let nl = seq!['\n'];
    assert(blank(sp));
    assert(blank(nl));
    match o {
        Some(n) => {
            let d = decimal_text(n as nat);
            let f = "\nlimit "@;
            has_parts(s, i, f, d);
            let k = i + f.len();
            digits_numeral(n as nat);
            gives_spaced_word(s, i, nl, kw::LIMIT@, sp, av);
            gives_number(s, k, d, true);
            gives_then(
                s,
                i,
                av,
                seq![Tok::Ident(kw::LIMIT@)],
                k,
                seq![Tok::Number(d)],
                k + d.len(),
                limit_toks(o),
            );
        },
        None => {
            gives_blank(s, i, Seq::empty(), av);
        },
    }
}

pub open spec fn distinct_text(d: bool) -> Seq<char> {
    if d {
        "\ndistinct"@
    } else {
        Seq::empty()
    }
}

pub proof fn gives_distinct(s: Seq<char>, i: int, d: bool, av: bool)
    requires
        has(s, i, distinct_text(d)),
        cut(s, i + distinct_text(d).len()),
    ensures
        gives(s, i, av, distinct_toks(d), i + distinct_text(d).len()),
{
    clause_texts();
    clause_idents();
    let nl = seq!['\n'];
    let none = Seq::<char>::empty();
    assert(blank(nl));
    assert(blank(none));
    if d {
        gives_spaced_word(s, i, nl, kw::DISTINCT@, none, av);
    } else {
        gives_blank(s, i, none, av);
    }
}

/// A text that is empty or starts a line.
pub open spec fn line(x: Seq<char>) -> bool {
    x.len() > 0 ==> x[0] == '\n'
}

proof fn cut_back(s: Seq<char>, i: int, x: Seq<char>)
    requires
        has(s, i, x),
        line(x),
        cut(s, i + x.len()),
    ensures
        cut(s, i),
{
    if x.len() > 0 {
        assert(s[i + 0] == x[0]);
    }
}

#[verifier::spinoff_prover]
proof fn joins_line(v: Seq<JoinClauseV>)
    ensures
        line(joins_text(v)),
    decreases v.len(),
{
    if v.len() > 0 {
        clause_texts();
        let less = v.drop_last();
        joins_line(less);
        if v.len() == 1 {
            assert(less =~= Seq::empty());
            assert(joins_text(less) == Seq::<char>::empty());
            assert(join_text(v.last())[0] == '\n');
            assert(joins_text(v)[0] == '\n');
        } else {
            assert(joins_text(less).len() > 0) by {
                joins_text_some(less);
            }
            assert(joins_text(v)[0] == joins_text(less)[0]);
        }
    }
}

#[verifier::spinoff_prover]
proof fn joins_text_some(v: Seq<JoinClauseV>)
    requires
        v.len() > 0,
    ensures
        joins_text(v).len() > 0,
{
    clause_texts();
    assert(join_text(v.last()).len() > 0);
}

#[verifier::spinoff_prover]
proof fn unnests_line(v: Seq<UnnestClauseV>)
    ensures
        line(unnests_text(v)),
    decreases v.len(),
{
    if v.len() > 0 {
        clause_texts();
        let less = v.drop_last();
        unnests_line(less);
        if v.len() == 1 {
            assert(less =~= Seq::empty());
            assert(unnests_text(less) == Seq::<char>::empty());
            assert(unnest_text(v.last())[0] == '\n');
            assert(unnests_text(v)[0] == '\n');
        } else {
            assert(unnests_text(less).len() > 0) by {
                unnests_text_some(less);
            }
            assert(unnests_text(v)[0] == unnests_text(less)[0]);
        }
    }
}

#[verifier::spinoff_prover]
proof fn unnests_text_some(v: Seq<UnnestClauseV>)
    requires
        v.len() > 0,
    ensures
        unnests_text(v).len() > 0,
{
    clause_texts();
    assert(unnest_text(v.last()).len() > 0);
}

#[verifier::spinoff_prover]
proof fn lets_line(v: Seq<AliasLetV>)
    ensures
        line(lets_text(v)),
    decreases v.len(),
{
    if v.len() > 0 {
        clause_texts();
        let less = v.drop_last();
        lets_line(less);
        if v.len() == 1 {
            assert(less =~= Seq::empty());
            assert(lets_text(less) == Seq::<char>::empty());
            assert("\nlet "@[0] == '\n');
            assert(lets_text(v)[0] == '\n');
        } else {
            assert(lets_text(less).len() > 0) by {
                lets_text_some(less);
            }
            assert(lets_text(v)[0] == lets_text(less)[0]);
        }
    }
}

#[verifier::spinoff_prover]
proof fn lets_text_some(v: Seq<AliasLetV>)
    requires
        v.len() > 0,
    ensures
        lets_text(v).len() > 0,
{
    clause_texts();
    assert("\nlet "@.len() > 0);
}

#[verifier::spinoff_prover]
proof fn orders_line(v: Seq<OrderKeyV>)
    ensures
        line(order_text(v)),
    decreases v.len(),
{
    if v.len() > 0 {
        clause_texts();
        let less = v.drop_last();
        orders_line(less);
        if v.len() == 1 {
            assert(less =~= Seq::empty());
            assert(order_text(less) == Seq::<char>::empty());
            assert("\norder by "@[0] == '\n');
            assert(order_text(v)[0] == '\n');
        } else {
            assert(order_text(less).len() > 0) by {
                orders_text_some(less);
            }
            assert(order_text(v)[0] == order_text(less)[0]);
        }
    }
}

#[verifier::spinoff_prover]
proof fn orders_text_some(v: Seq<OrderKeyV>)
    requires
        v.len() > 0,
    ensures
        order_text(v).len() > 0,
{
    clause_texts();
    assert("\norder by "@.len() > 0);
}

#[verifier::spinoff_prover]
proof fn clause_lines(q: QueryV)
    ensures
        line(joins_text(q.joins)),
        line(unnests_text(q.unnests)),
        line(where_text(q.where_clause)),
        line(lets_text(q.alias_lets)),
        line(distinct_text(q.distinct)),
        line(aggregate_text(q.aggregate)),
        line(having_text(q.having)),
        line(select_text(q.project)),
        line(order_text(q.order_by)),
        line(limit_text(q.limit)),
{
    clause_texts();
    joins_line(q.joins);
    unnests_line(q.unnests);
    lets_line(q.alias_lets);
    orders_line(q.order_by);
    match q.aggregate {
        Some(AggregateClauseV::Block(b)) => {
            assert(block_text(b)[0] == '\n');
        },
        _ => {},
    }
}

/// The clauses up to the aliases.
pub open spec fn rows_text(q: QueryV) -> Seq<char> {
    "from "@ + path_text(q.source.path) + " as "@ + q.source.alias + joins_text(q.joins)
        + unnests_text(q.unnests) + where_text(q.where_clause) + lets_text(q.alias_lets)
}

pub open spec fn rows_toks(q: QueryV) -> Seq<Tok> {
    source_toks(q.source) + flat(joins_toks(q.joins)) + flat(unnests_toks(q.unnests)) + where_toks(
        q.where_clause,
    ) + flat(lets_toks(q.alias_lets))
}

#[verifier::spinoff_prover]
#[verifier::rlimit(60)]
proof fn gives_rows(s: Seq<char>, q: QueryV)
    requires
        regular_query(q),
        has(s, 0, rows_text(q)),
        cut(s, rows_text(q).len() as int),
    ensures
        gives(s, 0, false, rows_toks(q), rows_text(q).len() as int),
{
    clause_lines(q);
    let t0 = "from "@ + path_text(q.source.path) + " as "@ + q.source.alias;
    let t1 = joins_text(q.joins);
    let t2 = unnests_text(q.unnests);
    let t3 = where_text(q.where_clause);
    let t4 = lets_text(q.alias_lets);
    has_parts(s, 0, t0 + t1 + t2 + t3, t4);
    has_parts(s, 0, t0 + t1 + t2, t3);
    has_parts(s, 0, t0 + t1, t2);
    has_parts(s, 0, t0, t1);
    let p1 = t0.len() as int;
    let p2 = p1 + t1.len();
    let p3 = p2 + t2.len();
    let p4 = p3 + t3.len();
    let p5 = p4 + t4.len();
    cut_back(s, p4, t4);
    cut_back(s, p3, t3);
    cut_back(s, p2, t2);
    cut_back(s, p1, t1);
    let k0 = source_toks(q.source);
    let k1 = flat(joins_toks(q.joins));
    let k2 = flat(unnests_toks(q.unnests));
    let k3 = where_toks(q.where_clause);
    let k4 = flat(lets_toks(q.alias_lets));
    gives_source(s, 0, q.source, false);
    gives_joins(s, p1, q.joins, value_after(k0, false));
    gives_join(s, 0, false, k0, p1, k1, p2);
    gives_unnests(s, p2, q.unnests, value_after(k0 + k1, false));
    gives_join(s, 0, false, k0 + k1, p2, k2, p3);
    gives_where(s, p3, q.where_clause, value_after(k0 + k1 + k2, false));
    gives_join(s, 0, false, k0 + k1 + k2, p3, k3, p4);
    gives_lets(s, p4, q.alias_lets, value_after(k0 + k1 + k2 + k3, false));
    gives_join(s, 0, false, k0 + k1 + k2 + k3, p4, k4, p5);
}

#[verifier::spinoff_prover]
proof fn query_parts(q: QueryV)
    requires
        q.field_sets.len() == 0,
    ensures
        query_text(q) == rows_text(q) + distinct_text(q.distinct) + aggregate_text(q.aggregate)
            + having_text(q.having) + select_text(q.project) + order_text(q.order_by) + limit_text(
            q.limit,
        ),
        query_toks(q) == rows_toks(q) + distinct_toks(q.distinct) + aggregate_toks(q.aggregate)
            + suffix_toks(Tok::Ident(kw::HAVING@), q.having) + select_toks(q.project) + flat(
            orders_toks(q.order_by),
        ) + limit_toks(q.limit),
{
    let none = Seq::<char>::empty();
    assert(super::format::set_defs_text(q.field_sets) == none);
    assert(none + none + "from "@ =~= "from "@);
}

/// The layout of a query reads as its tokens.
#[verifier::spinoff_prover]
#[verifier::rlimit(60)]
pub proof fn gives_query(q: QueryV)
    requires
        regular_query(q),
    ensures
        gives(query_text(q), 0, false, query_toks(q), query_text(q).len() as int),
{
    query_parts(q);
    clause_lines(q);
    let s = query_text(q);
    let t0 = rows_text(q);
    let t1 = distinct_text(q.distinct);
    let t2 = aggregate_text(q.aggregate);
    let t3 = having_text(q.having);
    let t4 = select_text(q.project);
    let t5 = order_text(q.order_by);
    let t6 = limit_text(q.limit);
    assert(has(s, 0, s));
    has_parts(s, 0, t0 + t1 + t2 + t3 + t4 + t5, t6);
    has_parts(s, 0, t0 + t1 + t2 + t3 + t4, t5);
    has_parts(s, 0, t0 + t1 + t2 + t3, t4);
    has_parts(s, 0, t0 + t1 + t2, t3);
    has_parts(s, 0, t0 + t1, t2);
    has_parts(s, 0, t0, t1);
    let p1 = t0.len() as int;
    let p2 = p1 + t1.len();
    let p3 = p2 + t2.len();
    let p4 = p3 + t3.len();
    let p5 = p4 + t4.len();
    let p6 = p5 + t5.len();
    let p7 = p6 + t6.len();
    cut_back(s, p6, t6);
    cut_back(s, p5, t5);
    cut_back(s, p4, t4);
    cut_back(s, p3, t3);
    cut_back(s, p2, t2);
    cut_back(s, p1, t1);
    let k0 = rows_toks(q);
    let k1 = distinct_toks(q.distinct);
    let k2 = aggregate_toks(q.aggregate);
    let k3 = suffix_toks(Tok::Ident(kw::HAVING@), q.having);
    let k4 = select_toks(q.project);
    let k5 = flat(orders_toks(q.order_by));
    let k6 = limit_toks(q.limit);
    gives_rows(s, q);
    gives_distinct(s, p1, q.distinct, value_after(k0, false));
    gives_join(s, 0, false, k0, p1, k1, p2);
    gives_aggregate(s, p2, q.aggregate, value_after(k0 + k1, false));
    gives_join(s, 0, false, k0 + k1, p2, k2, p3);
    gives_having(s, p3, q.having, value_after(k0 + k1 + k2, false));
    gives_join(s, 0, false, k0 + k1 + k2, p3, k3, p4);
    gives_select(s, p4, q.project, value_after(k0 + k1 + k2 + k3, false));
    gives_join(s, 0, false, k0 + k1 + k2 + k3, p4, k4, p5);
    gives_orders(s, p5, q.order_by, value_after(k0 + k1 + k2 + k3 + k4, false));
    gives_join(s, 0, false, k0 + k1 + k2 + k3 + k4, p5, k5, p6);
    gives_limit(s, p6, q.limit, value_after(k0 + k1 + k2 + k3 + k4 + k5, false));
    gives_join(s, 0, false, k0 + k1 + k2 + k3 + k4 + k5, p6, k6, p7);
}

} // verus!
