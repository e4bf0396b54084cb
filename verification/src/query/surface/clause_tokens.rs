//! The tokens of a query's layout, clause by clause.
use vstd::prelude::*;

use super::super::canonical::is_bare;
use super::super::grammar::{keyword_of, kw};
use super::super::lexer::{word_char, Tok, TokAt};
use super::ast::{
    AggBlockItemV, AggregateBlockV, AggregateClauseV, AliasLetV, ExprV, JoinClauseV, JoinKind,
    OrderKeyV, PathExprV, QueryV, SourceClauseV, UnnestClauseV,
};
use super::format::{ends_in_dot, joins_words, starts_signed};
use super::layout_tokens::{
    beside_toks, closes, list_toks, name_tok, path_toks, regular, regular_all, regular_path, stands,
    stands_parts, toks,
};
use super::readback::ident_text;
use super::syntax::kind;
use crate::text::{decimal_text, whitespace};

verus! {

/// The runs of tokens one after the other.
pub open spec fn flat(p: Seq<Seq<Tok>>) -> Seq<Tok>
    decreases p.len(),
{
    if p.len() == 0 {
        Seq::empty()
    } else {
        flat(p.drop_last()) + p.last()
    }
}

/// Where run `n` starts.
pub open spec fn flat_at(p: Seq<Seq<Tok>>, n: int) -> int {
    flat(p.take(n)).len() as int
}

/// Each run stands in its place.
pub proof fn flat_stands(t: Seq<TokAt>, i: int, p: Seq<Seq<Tok>>, n: int)
    requires
        stands(t, i, flat(p)),
        0 <= n < p.len(),
    ensures
        stands(t, i + flat_at(p, n), p[n]),
        flat_at(p, n + 1) == flat_at(p, n) + p[n].len(),
        flat_at(p, p.len() as int) == flat(p).len(),
        flat_at(p, n + 1) <= flat(p).len(),
        flat_at(p, 0) == 0,
    decreases p.len(),
{
    let q = p.drop_last();
    stands_parts(t, i, flat(q), p.last());
    assert(p.take(p.len() as int) =~= p);
    assert(p.take(n + 1).drop_last() =~= p.take(n));
    assert(p.take(n + 1).last() == p[n]);
    assert(p.take(0) =~= Seq::empty());
    if n + 1 < p.len() {
        flat_stands(t, i, q, n);
        assert(q.take(n) =~= p.take(n));
        assert(q.take(n + 1) =~= p.take(n + 1));
    } else {
        assert(p.take(n) =~= q);
    }
}

/// The length and the first two characters of a word.
pub open spec fn code(w: Seq<char>) -> int {
    w.len() * 1000000 + (w[0] as int) * 1000 + (w[1] as int)
}

/// The words of the clauses differ in their codes.
#[verifier::spinoff_prover]
pub proof fn clause_codes()
    ensures
        code(kw::JOIN@) == 4106111,
        code(kw::LEFT@) == 4108101,
        code(kw::INNER@) == 5105110,
        code(kw::UNNEST@) == 6117110,
        code(kw::WHERE@) == 5119104,
        code(kw::LET@) == 3108101,
        code(kw::DISTINCT@) == 8100105,
        code(kw::AGGREGATE@) == 9097103,
        code(kw::COLLECT@) == 7099111,
        code(kw::HAVING@) == 6104097,
        code(kw::SELECT@) == 6115101,
        code(kw::ORDER@) == 5111114,
        code(kw::LIMIT@) == 5108105,
        code(kw::BY@) == 2098121,
        code(kw::AS@) == 2097115,
        code(kw::ON@) == 2111110,
        code(kw::DESC@) == 4100101,
        code(kw::ASC@) == 3097115,
        code(kw::ROLLUP@) == 6114111,
        code(kw::AND@) == 3097110,
        code(kw::OR@) == 2111114,
        code(kw::EXISTS@) == 6101120,
        code(kw::IS@) == 2105115,
        code(kw::IN@) == 2105110,
        code(kw::NOT@) == 3110111,
        code(kw::MATCHES@) == 7109097,
        code(kw::STARTS_WITH@) == 11115116,
        code(kw::ENDS_WITH@) == 9101110,
        code(kw::CONTAINS@) == 8099111,
        code(kw::SUM@) == 3115117,
        code(kw::COUNT@) == 5099111,
        code(kw::AVG@) == 3097118,
        code(kw::MIN@) == 3109105,
        code(kw::MAX@) == 3109097,
        code(kw::FROM@) == 4102114,
        code(kw::FIELDS@) == 6102105,
{
    reveal_strlit("join");
    assert(kw::JOIN@.len() == 4 && kw::JOIN@[0] == 'j' && kw::JOIN@[1] == 'o');
    reveal_strlit("left");
    assert(kw::LEFT@.len() == 4 && kw::LEFT@[0] == 'l' && kw::LEFT@[1] == 'e');
    reveal_strlit("inner");
    assert(kw::INNER@.len() == 5 && kw::INNER@[0] == 'i' && kw::INNER@[1] == 'n');
    reveal_strlit("unnest");
    assert(kw::UNNEST@.len() == 6 && kw::UNNEST@[0] == 'u' && kw::UNNEST@[1] == 'n');
    reveal_strlit("where");
    assert(kw::WHERE@.len() == 5 && kw::WHERE@[0] == 'w' && kw::WHERE@[1] == 'h');
    reveal_strlit("let");
    assert(kw::LET@.len() == 3 && kw::LET@[0] == 'l' && kw::LET@[1] == 'e');
    reveal_strlit("distinct");
    assert(kw::DISTINCT@.len() == 8 && kw::DISTINCT@[0] == 'd' && kw::DISTINCT@[1] == 'i');
    reveal_strlit("aggregate");
    assert(kw::AGGREGATE@.len() == 9 && kw::AGGREGATE@[0] == 'a' && kw::AGGREGATE@[1] == 'g');
    reveal_strlit("collect");
    assert(kw::COLLECT@.len() == 7 && kw::COLLECT@[0] == 'c' && kw::COLLECT@[1] == 'o');
    reveal_strlit("having");
    assert(kw::HAVING@.len() == 6 && kw::HAVING@[0] == 'h' && kw::HAVING@[1] == 'a');
    reveal_strlit("select");
    assert(kw::SELECT@.len() == 6 && kw::SELECT@[0] == 's' && kw::SELECT@[1] == 'e');
    reveal_strlit("order");
    assert(kw::ORDER@.len() == 5 && kw::ORDER@[0] == 'o' && kw::ORDER@[1] == 'r');
    reveal_strlit("limit");
    assert(kw::LIMIT@.len() == 5 && kw::LIMIT@[0] == 'l' && kw::LIMIT@[1] == 'i');
    reveal_strlit("by");
    assert(kw::BY@.len() == 2 && kw::BY@[0] == 'b' && kw::BY@[1] == 'y');
    reveal_strlit("as");
    assert(kw::AS@.len() == 2 && kw::AS@[0] == 'a' && kw::AS@[1] == 's');
    reveal_strlit("on");
    assert(kw::ON@.len() == 2 && kw::ON@[0] == 'o' && kw::ON@[1] == 'n');
    reveal_strlit("desc");
    assert(kw::DESC@.len() == 4 && kw::DESC@[0] == 'd' && kw::DESC@[1] == 'e');
    reveal_strlit("asc");
    assert(kw::ASC@.len() == 3 && kw::ASC@[0] == 'a' && kw::ASC@[1] == 's');
    reveal_strlit("rollup");
    assert(kw::ROLLUP@.len() == 6 && kw::ROLLUP@[0] == 'r' && kw::ROLLUP@[1] == 'o');
    reveal_strlit("and");
    assert(kw::AND@.len() == 3 && kw::AND@[0] == 'a' && kw::AND@[1] == 'n');
    reveal_strlit("or");
    assert(kw::OR@.len() == 2 && kw::OR@[0] == 'o' && kw::OR@[1] == 'r');
    reveal_strlit("exists");
    assert(kw::EXISTS@.len() == 6 && kw::EXISTS@[0] == 'e' && kw::EXISTS@[1] == 'x');
    reveal_strlit("is");
    assert(kw::IS@.len() == 2 && kw::IS@[0] == 'i' && kw::IS@[1] == 's');
    reveal_strlit("in");
    assert(kw::IN@.len() == 2 && kw::IN@[0] == 'i' && kw::IN@[1] == 'n');
    reveal_strlit("not");
    assert(kw::NOT@.len() == 3 && kw::NOT@[0] == 'n' && kw::NOT@[1] == 'o');
    reveal_strlit("matches");
    assert(kw::MATCHES@.len() == 7 && kw::MATCHES@[0] == 'm' && kw::MATCHES@[1] == 'a');
    reveal_strlit("starts_with");
    assert(kw::STARTS_WITH@.len() == 11 && kw::STARTS_WITH@[0] == 's' && kw::STARTS_WITH@[1] == 't');
    reveal_strlit("ends_with");
    assert(kw::ENDS_WITH@.len() == 9 && kw::ENDS_WITH@[0] == 'e' && kw::ENDS_WITH@[1] == 'n');
    reveal_strlit("contains");
    assert(kw::CONTAINS@.len() == 8 && kw::CONTAINS@[0] == 'c' && kw::CONTAINS@[1] == 'o');
    reveal_strlit("sum");
    assert(kw::SUM@.len() == 3 && kw::SUM@[0] == 's' && kw::SUM@[1] == 'u');
    reveal_strlit("count");
    assert(kw::COUNT@.len() == 5 && kw::COUNT@[0] == 'c' && kw::COUNT@[1] == 'o');
    reveal_strlit("avg");
    assert(kw::AVG@.len() == 3 && kw::AVG@[0] == 'a' && kw::AVG@[1] == 'v');
    reveal_strlit("min");
    assert(kw::MIN@.len() == 3 && kw::MIN@[0] == 'm' && kw::MIN@[1] == 'i');
    reveal_strlit("max");
    assert(kw::MAX@.len() == 3 && kw::MAX@[0] == 'm' && kw::MAX@[1] == 'a');
    reveal_strlit("from");
    assert(kw::FROM@.len() == 4 && kw::FROM@[0] == 'f' && kw::FROM@[1] == 'r');
    reveal_strlit("fields");
    assert(kw::FIELDS@.len() == 6 && kw::FIELDS@[0] == 'f' && kw::FIELDS@[1] == 'i');
}

/// The words of the clauses are words.
#[verifier::spinoff_prover]
pub proof fn clause_idents()
    ensures
        ident_text(kw::JOIN@),
        ident_text(kw::LEFT@),
        ident_text(kw::UNNEST@),
        ident_text(kw::WHERE@),
        ident_text(kw::LET@),
        ident_text(kw::DISTINCT@),
        ident_text(kw::AGGREGATE@),
        ident_text(kw::COLLECT@),
        ident_text(kw::HAVING@),
        ident_text(kw::SELECT@),
        ident_text(kw::ORDER@),
        ident_text(kw::LIMIT@),
        ident_text(kw::BY@),
        ident_text(kw::AS@),
        ident_text(kw::ON@),
        ident_text(kw::DESC@),
        ident_text(kw::ROLLUP@),
        ident_text(kw::FROM@),
{
    reveal_strlit("join");
    assert(kw::JOIN@.len() == 4);
    assert(kw::JOIN@[0] == 'j');
    assert(kw::JOIN@[1] == 'o');
    assert(kw::JOIN@[2] == 'i');
    assert(kw::JOIN@[3] == 'n');
    assert forall|k: int| 1 <= k < kw::JOIN@.len() implies word_char(#[trigger] kw::JOIN@[k]) by {
        assert(k == 1 || k == 2 || k == 3);
    }
    reveal_strlit("left");
    assert(kw::LEFT@.len() == 4);
    assert(kw::LEFT@[0] == 'l');
    assert(kw::LEFT@[1] == 'e');
    assert(kw::LEFT@[2] == 'f');
    assert(kw::LEFT@[3] == 't');
    assert forall|k: int| 1 <= k < kw::LEFT@.len() implies word_char(#[trigger] kw::LEFT@[k]) by {
        assert(k == 1 || k == 2 || k == 3);
    }
    reveal_strlit("unnest");
    assert(kw::UNNEST@.len() == 6);
    assert(kw::UNNEST@[0] == 'u');
    assert(kw::UNNEST@[1] == 'n');
    assert(kw::UNNEST@[2] == 'n');
    assert(kw::UNNEST@[3] == 'e');
    assert(kw::UNNEST@[4] == 's');
    assert(kw::UNNEST@[5] == 't');
    assert forall|k: int| 1 <= k < kw::UNNEST@.len() implies word_char(#[trigger] kw::UNNEST@[k]) by {
        assert(k == 1 || k == 2 || k == 3 || k == 4 || k == 5);
    }
    reveal_strlit("where");
    assert(kw::WHERE@.len() == 5);
    assert(kw::WHERE@[0] == 'w');
    assert(kw::WHERE@[1] == 'h');
    assert(kw::WHERE@[2] == 'e');
    assert(kw::WHERE@[3] == 'r');
    assert(kw::WHERE@[4] == 'e');
    assert forall|k: int| 1 <= k < kw::WHERE@.len() implies word_char(#[trigger] kw::WHERE@[k]) by {
        assert(k == 1 || k == 2 || k == 3 || k == 4);
    }
    reveal_strlit("let");
    assert(kw::LET@.len() == 3);
    assert(kw::LET@[0] == 'l');
    assert(kw::LET@[1] == 'e');
    assert(kw::LET@[2] == 't');
    assert forall|k: int| 1 <= k < kw::LET@.len() implies word_char(#[trigger] kw::LET@[k]) by {
        assert(k == 1 || k == 2);
    }
    reveal_strlit("distinct");
    assert(kw::DISTINCT@.len() == 8);
    assert(kw::DISTINCT@[0] == 'd');
    assert(kw::DISTINCT@[1] == 'i');
    assert(kw::DISTINCT@[2] == 's');
    assert(kw::DISTINCT@[3] == 't');
    assert(kw::DISTINCT@[4] == 'i');
    assert(kw::DISTINCT@[5] == 'n');
    assert(kw::DISTINCT@[6] == 'c');
    assert(kw::DISTINCT@[7] == 't');
    assert forall|k: int| 1 <= k < kw::DISTINCT@.len() implies word_char(#[trigger] kw::DISTINCT@[k]) by {
        assert(k == 1 || k == 2 || k == 3 || k == 4 || k == 5 || k == 6 || k == 7);
    }
    reveal_strlit("aggregate");
    assert(kw::AGGREGATE@.len() == 9);
    assert(kw::AGGREGATE@[0] == 'a');
    assert(kw::AGGREGATE@[1] == 'g');
    assert(kw::AGGREGATE@[2] == 'g');
    assert(kw::AGGREGATE@[3] == 'r');
    assert(kw::AGGREGATE@[4] == 'e');
    assert(kw::AGGREGATE@[5] == 'g');
    assert(kw::AGGREGATE@[6] == 'a');
    assert(kw::AGGREGATE@[7] == 't');
    assert(kw::AGGREGATE@[8] == 'e');
    assert forall|k: int| 1 <= k < kw::AGGREGATE@.len() implies word_char(#[trigger] kw::AGGREGATE@[k]) by {
        assert(k == 1 || k == 2 || k == 3 || k == 4 || k == 5 || k == 6 || k == 7 || k == 8);
    }
    reveal_strlit("collect");
    assert(kw::COLLECT@.len() == 7);
    assert(kw::COLLECT@[0] == 'c');
    assert(kw::COLLECT@[1] == 'o');
    assert(kw::COLLECT@[2] == 'l');
    assert(kw::COLLECT@[3] == 'l');
    assert(kw::COLLECT@[4] == 'e');
    assert(kw::COLLECT@[5] == 'c');
    assert(kw::COLLECT@[6] == 't');
    assert forall|k: int| 1 <= k < kw::COLLECT@.len() implies word_char(#[trigger] kw::COLLECT@[k]) by {
        assert(k == 1 || k == 2 || k == 3 || k == 4 || k == 5 || k == 6);
    }
    reveal_strlit("having");
    assert(kw::HAVING@.len() == 6);
    assert(kw::HAVING@[0] == 'h');
    assert(kw::HAVING@[1] == 'a');
    assert(kw::HAVING@[2] == 'v');
    assert(kw::HAVING@[3] == 'i');
    assert(kw::HAVING@[4] == 'n');
    assert(kw::HAVING@[5] == 'g');
    assert forall|k: int| 1 <= k < kw::HAVING@.len() implies word_char(#[trigger] kw::HAVING@[k]) by {
        assert(k == 1 || k == 2 || k == 3 || k == 4 || k == 5);
    }
    reveal_strlit("select");
    assert(kw::SELECT@.len() == 6);
    assert(kw::SELECT@[0] == 's');
    assert(kw::SELECT@[1] == 'e');
    assert(kw::SELECT@[2] == 'l');
    assert(kw::SELECT@[3] == 'e');
    assert(kw::SELECT@[4] == 'c');
    assert(kw::SELECT@[5] == 't');
    assert forall|k: int| 1 <= k < kw::SELECT@.len() implies word_char(#[trigger] kw::SELECT@[k]) by {
        assert(k == 1 || k == 2 || k == 3 || k == 4 || k == 5);
    }
    reveal_strlit("order");
    assert(kw::ORDER@.len() == 5);
    assert(kw::ORDER@[0] == 'o');
    assert(kw::ORDER@[1] == 'r');
    assert(kw::ORDER@[2] == 'd');
    assert(kw::ORDER@[3] == 'e');
    assert(kw::ORDER@[4] == 'r');
    assert forall|k: int| 1 <= k < kw::ORDER@.len() implies word_char(#[trigger] kw::ORDER@[k]) by {
        assert(k == 1 || k == 2 || k == 3 || k == 4);
    }
    reveal_strlit("limit");
    assert(kw::LIMIT@.len() == 5);
    assert(kw::LIMIT@[0] == 'l');
    assert(kw::LIMIT@[1] == 'i');
    assert(kw::LIMIT@[2] == 'm');
    assert(kw::LIMIT@[3] == 'i');
    assert(kw::LIMIT@[4] == 't');
    assert forall|k: int| 1 <= k < kw::LIMIT@.len() implies word_char(#[trigger] kw::LIMIT@[k]) by {
        assert(k == 1 || k == 2 || k == 3 || k == 4);
    }
    reveal_strlit("by");
    assert(kw::BY@.len() == 2);
    assert(kw::BY@[0] == 'b');
    assert(kw::BY@[1] == 'y');
    assert forall|k: int| 1 <= k < kw::BY@.len() implies word_char(#[trigger] kw::BY@[k]) by {
        assert(k == 1);
    }
    reveal_strlit("as");
    assert(kw::AS@.len() == 2);
    assert(kw::AS@[0] == 'a');
    assert(kw::AS@[1] == 's');
    assert forall|k: int| 1 <= k < kw::AS@.len() implies word_char(#[trigger] kw::AS@[k]) by {
        assert(k == 1);
    }
    reveal_strlit("on");
    assert(kw::ON@.len() == 2);
    assert(kw::ON@[0] == 'o');
    assert(kw::ON@[1] == 'n');
    assert forall|k: int| 1 <= k < kw::ON@.len() implies word_char(#[trigger] kw::ON@[k]) by {
        assert(k == 1);
    }
    reveal_strlit("desc");
    assert(kw::DESC@.len() == 4);
    assert(kw::DESC@[0] == 'd');
    assert(kw::DESC@[1] == 'e');
    assert(kw::DESC@[2] == 's');
    assert(kw::DESC@[3] == 'c');
    assert forall|k: int| 1 <= k < kw::DESC@.len() implies word_char(#[trigger] kw::DESC@[k]) by {
        assert(k == 1 || k == 2 || k == 3);
    }
    reveal_strlit("rollup");
    assert(kw::ROLLUP@.len() == 6);
    assert(kw::ROLLUP@[0] == 'r');
    assert(kw::ROLLUP@[1] == 'o');
    assert(kw::ROLLUP@[2] == 'l');
    assert(kw::ROLLUP@[3] == 'l');
    assert(kw::ROLLUP@[4] == 'u');
    assert(kw::ROLLUP@[5] == 'p');
    assert forall|k: int| 1 <= k < kw::ROLLUP@.len() implies word_char(#[trigger] kw::ROLLUP@[k]) by {
        assert(k == 1 || k == 2 || k == 3 || k == 4 || k == 5);
    }
    reveal_strlit("from");
    assert(kw::FROM@.len() == 4);
    assert(kw::FROM@[0] == 'f');
    assert(kw::FROM@[1] == 'r');
    assert(kw::FROM@[2] == 'o');
    assert(kw::FROM@[3] == 'm');
    assert forall|k: int| 1 <= k < kw::FROM@.len() implies word_char(#[trigger] kw::FROM@[k]) by {
        assert(k == 1 || k == 2 || k == 3);
    }
}

/// The place of a clause that starts with this word.
pub open spec fn rank(w: Seq<char>) -> int {
    if w == kw::JOIN@ || w == kw::LEFT@ {
        1
    } else if w == kw::UNNEST@ {
        2
    } else if w == kw::WHERE@ {
        3
    } else if w == kw::LET@ {
        4
    } else if w == kw::DISTINCT@ {
        5
    } else if w == kw::AGGREGATE@ || w == kw::COLLECT@ {
        6
    } else if w == kw::HAVING@ {
        7
    } else if w == kw::SELECT@ {
        8
    } else if w == kw::ORDER@ {
        9
    } else if w == kw::LIMIT@ {
        10
    } else {
        0
    }
}

/// Clause `n` or a later one starts here, or the query ends.
pub open spec fn starts(n: int, k: Tok) -> bool {
    match k {
        Tok::Eof => true,
        Tok::Ident(w) => rank(w) >= n,
        _ => false,
    }
}

/// An expression ends where a clause starts.
pub proof fn starts_close(n: int, k: Tok)
    requires
        n >= 1,
        starts(n, k),
    ensures
        closes(k),
{
    clause_codes();
}

/// A name that needs no quotes starts with no white space.
pub open spec fn regular_name(n: Seq<char>) -> bool {
    is_bare(n) ==> !whitespace(n[0])
}

/// An alias is an identifier and no keyword.
pub open spec fn regular_alias(a: Seq<char>) -> bool {
    ident_text(a) && keyword_of(a) is None
}

/// A path that a word may follow.
pub open spec fn regular_source(p: PathExprV) -> bool {
    regular_path(p) && !(p.root is Identity && p.segments.len() == 0)
}

/// An expression that may stand between words.
pub open spec fn beside(e: ExprV) -> bool {
    regular(e) && !joins_words(e)
}

pub open spec fn source_toks(c: SourceClauseV) -> Seq<Tok> {
    seq![Tok::Ident(kw::FROM@)] + path_toks(c.path) + seq![Tok::Ident(kw::AS@), Tok::Ident(c.alias)]
}

pub open spec fn join_word(k: JoinKind) -> Seq<Tok> {
    match k {
        JoinKind::Inner => seq![Tok::Ident(kw::JOIN@)],
        JoinKind::Left => seq![Tok::Ident(kw::LEFT@), Tok::Ident(kw::JOIN@)],
    }
}

pub open spec fn join_toks(j: JoinClauseV) -> Seq<Tok> {
    join_word(j.kind) + path_toks(j.path) + seq![
        Tok::Ident(kw::AS@),
        Tok::Ident(j.alias),
        Tok::Ident(kw::ON@),
    ] + toks(j.on)
}

pub open spec fn joins_toks(v: Seq<JoinClauseV>) -> Seq<Seq<Tok>> {
    Seq::new(v.len(), |k: int| join_toks(v[k]))
}

pub open spec fn regular_join(j: JoinClauseV) -> bool {
    regular_source(j.path) && regular_alias(j.alias) && beside(j.on)
}

pub open spec fn unnest_toks(u: UnnestClauseV) -> Seq<Tok> {
    seq![Tok::Ident(kw::UNNEST@)] + beside_toks(u.expr, 0) + seq![
        Tok::Ident(kw::AS@),
        Tok::Ident(u.alias),
    ]
}

pub open spec fn unnests_toks(v: Seq<UnnestClauseV>) -> Seq<Seq<Tok>> {
    Seq::new(v.len(), |k: int| unnest_toks(v[k]))
}

pub open spec fn regular_unnest(u: UnnestClauseV) -> bool {
    regular(u.expr) && regular_alias(u.alias)
}

/// The tokens of the conjuncts of a condition.
pub open spec fn conjunct_toks(e: ExprV) -> Seq<Tok> {
    if e is And {
        toks(e)
    } else {
        beside_toks(e, 1)
    }
}

pub open spec fn where_toks(o: Option<ExprV>) -> Seq<Tok> {
    match o {
        Some(e) => seq![Tok::Ident(kw::WHERE@)] + conjunct_toks(e),
        None => Seq::empty(),
    }
}

pub open spec fn let_toks(l: AliasLetV, first: bool) -> Seq<Tok> {
    seq![
        if first {
            Tok::Ident(kw::LET@)
        } else {
            Tok::Comma
        },
        Tok::Ident(l.name),
        Tok::Assign,
    ] + toks(l.expr)
}

pub open spec fn lets_toks(v: Seq<AliasLetV>) -> Seq<Seq<Tok>> {
    Seq::new(v.len(), |k: int| let_toks(v[k], k == 0))
}

pub open spec fn regular_let(l: AliasLetV) -> bool {
    ident_text(l.name) && regular(l.expr) && !ends_in_dot(l.expr)
}

pub open spec fn distinct_toks(d: bool) -> Seq<Tok> {
    if d {
        seq![Tok::Ident(kw::DISTINCT@)]
    } else {
        Seq::empty()
    }
}

/// A comma behind item `i` of `n`, but for the last one.
pub open spec fn comma_toks(i: int, n: nat) -> Seq<Tok> {
    if i + 1 < n {
        seq![Tok::Comma]
    } else {
        Seq::empty()
    }
}

/// An optional expression behind a token.
pub open spec fn suffix_toks(k: Tok, o: Option<ExprV>) -> Seq<Tok> {
    match o {
        Some(e) => seq![k] + toks(e),
        None => Seq::empty(),
    }
}

pub open spec fn agg_toks(x: AggBlockItemV) -> Seq<Tok> {
    seq![name_tok(x.name), Tok::Colon] + toks(x.output) + suffix_toks(
        Tok::Ident(kw::WHERE@),
        x.where_pred,
    ) + suffix_toks(Tok::QuestionQuestion, x.default)
}

pub open spec fn aggs_toks(v: Seq<AggBlockItemV>, n: nat) -> Seq<Seq<Tok>> {
    Seq::new(v.len(), |k: int| agg_toks(v[k]) + comma_toks(k, n))
}

pub open spec fn regular_agg(x: AggBlockItemV) -> bool {
    &&& regular_name(x.name)
    &&& beside(x.output)
    &&& !(x.output is Object)
    &&& x.where_pred matches Some(e) ==> beside(e)
    &&& x.default matches Some(e) ==> regular(e)
}

pub open spec fn by_toks(b: AggregateBlockV) -> Seq<Tok> {
    if b.group_by.len() == 0 {
        Seq::empty()
    } else if b.rollup {
        seq![Tok::Ident(kw::BY@), Tok::Ident(kw::ROLLUP@), Tok::LParen] + list_toks(b.group_by)
            + seq![Tok::RParen]
    } else {
        seq![Tok::Ident(kw::BY@)] + list_toks(b.group_by)
    }
}

pub open spec fn block_toks(b: AggregateBlockV) -> Seq<Tok> {
    seq![Tok::Ident(kw::AGGREGATE@), Tok::LBrace] + flat(
        aggs_toks(b.reductions, b.reductions.len()),
    ) + seq![Tok::RBrace] + by_toks(b)
}

pub open spec fn regular_block(b: AggregateBlockV) -> bool {
    &&& b.reductions.len() > 0
    &&& forall|k: int| 0 <= k < b.reductions.len() ==> regular_agg(#[trigger] b.reductions[k])
    &&& regular_all(b.group_by)
    &&& b.rollup ==> b.group_by.len() > 0
    &&& !b.rollup && b.group_by.len() > 0 ==> {
        &&& !starts_signed(b.group_by[0])
        &&& !ends_in_dot(b.group_by.last())
        &&& list_toks(b.group_by)[0] != Tok::Ident(kw::ROLLUP@)
    }
}

pub open spec fn aggregate_toks(o: Option<AggregateClauseV>) -> Seq<Tok> {
    match o {
        Some(AggregateClauseV::Block(b)) => block_toks(b),
        Some(AggregateClauseV::Group(g)) => seq![Tok::Ident(kw::COLLECT@), Tok::Ident(kw::BY@)]
            + toks(g.key),
        None => Seq::empty(),
    }
}

pub open spec fn regular_aggregate(o: Option<AggregateClauseV>) -> bool {
    match o {
        Some(AggregateClauseV::Block(b)) => regular_block(b),
        Some(AggregateClauseV::Group(g)) => beside(g.key),
        None => true,
    }
}

pub open spec fn select_item_toks(f: (Seq<char>, ExprV)) -> Seq<Tok> {
    seq![name_tok(f.0), Tok::Colon] + toks(f.1)
}

pub open spec fn selects_toks(v: Seq<(Seq<char>, ExprV)>, n: nat) -> Seq<Seq<Tok>> {
    Seq::new(v.len(), |k: int| select_item_toks(v[k]) + comma_toks(k, n))
}

pub open spec fn select_toks(o: Option<Seq<(Seq<char>, ExprV)>>) -> Seq<Tok> {
    match o {
        Some(v) => seq![Tok::Ident(kw::SELECT@), Tok::LBrace] + flat(selects_toks(v, v.len()))
            + seq![Tok::RBrace],
        None => Seq::empty(),
    }
}

pub open spec fn regular_select(v: Seq<(Seq<char>, ExprV)>) -> bool {
    &&& v.len() > 0
    &&& forall|k: int| 0 <= k < v.len() ==> regular_field(#[trigger] v[k])
}

pub open spec fn regular_field(f: (Seq<char>, ExprV)) -> bool {
    regular_name(f.0) && regular(f.1)
}

pub open spec fn order_key_toks(k: OrderKeyV) -> Seq<Tok> {
    toks(k.expr) + (if k.desc {
        seq![Tok::Ident(kw::DESC@)]
    } else {
        Seq::empty()
    })
}

pub open spec fn orders_toks(v: Seq<OrderKeyV>) -> Seq<Seq<Tok>> {
    Seq::new(
        v.len(),
        |k: int|
            (if k == 0 {
                seq![Tok::Ident(kw::ORDER@), Tok::Ident(kw::BY@)]
            } else {
                seq![Tok::Comma]
            }) + order_key_toks(v[k]),
    )
}

pub open spec fn limit_toks(o: Option<u64>) -> Seq<Tok> {
    match o {
        Some(n) => seq![Tok::Ident(kw::LIMIT@), Tok::Number(decimal_text(n as nat))],
        None => Seq::empty(),
    }
}

/// The tokens of a query.
pub open spec fn query_toks(q: QueryV) -> Seq<Tok> {
    source_toks(q.source) + flat(joins_toks(q.joins)) + flat(unnests_toks(q.unnests)) + where_toks(
        q.where_clause,
    ) + flat(lets_toks(q.alias_lets)) + distinct_toks(q.distinct) + aggregate_toks(q.aggregate)
        + suffix_toks(Tok::Ident(kw::HAVING@), q.having) + select_toks(q.project) + flat(
        orders_toks(q.order_by),
    ) + limit_toks(q.limit)
}

/// A query without field sets whose expressions are regular: they hold no
/// nested queries, an aggregate is no object, and where a word stands next to one without
/// parentheses, it neither starts with a negative number nor ends with a lone
/// dot.
pub open spec fn regular_query(q: QueryV) -> bool {
    &&& q.field_sets.len() == 0
    &&& regular_source(q.source.path)
    &&& regular_alias(q.source.alias)
    &&& forall|k: int| 0 <= k < q.joins.len() ==> regular_join(#[trigger] q.joins[k])
    &&& forall|k: int| 0 <= k < q.unnests.len() ==> regular_unnest(#[trigger] q.unnests[k])
    &&& q.where_clause matches Some(e) ==> regular(e)
    &&& forall|k: int| 0 <= k < q.alias_lets.len() ==> regular_let(#[trigger] q.alias_lets[k])
    &&& regular_aggregate(q.aggregate)
    &&& q.having matches Some(e) ==> beside(e)
    &&& q.project matches Some(v) ==> regular_select(v)
    &&& forall|k: int| 0 <= k < q.order_by.len() ==> beside((#[trigger] q.order_by[k]).expr)
}

} // verus!
