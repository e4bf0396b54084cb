//! The surface language: what users type.
use vstd::prelude::*;

pub mod aggregates;
pub mod ast;
pub mod clause_parse;
pub mod clause_reads;
pub mod clause_tokens;
pub mod clauses;
pub mod completion;
pub mod format;
pub mod layout_exprs;
pub mod layout_parse;
pub mod layout_reads;
pub mod layout_tokens;
pub mod lower;
pub mod lowering;
pub mod meaning;
pub mod numbers_read;
pub mod parser;
pub mod paths;
pub mod predicates;
pub mod readback;
pub mod same;
pub mod sources;
pub mod syntax;

use super::ast::{Ast, AstV};
use super::lexer::{tokens_of, Tok};
use super::{QueryError, QueryFault};
use ast::QueryV;
use clause_parse::query_reads;
use clause_reads::gives_query;
use clause_tokens::{query_toks, regular_query};
use format::{format_query, query_text};
use layout_reads::value_after;
use lower::{lower_path_only, lower_query, no_scope, outcome, param_views};
use lowering::{lowered_path, lowered_query, nesting, ParamV};
use parser::{parse, parse_path_only, parsed_path, parsed_query};
use readback::{kinds, reads_all};
use same::same_query;

pub use lower::ParamValue;

verus! {

/// What a query text compiles to, with the values of its parameters.
pub open spec fn compiled(source: Seq<char>, params: Seq<(Seq<char>, ParamV)>) -> Result<
    AstV,
    QueryFault,
> {
    match parsed_query(source) {
        Ok(q) => lowered_query(q, params, Seq::empty(), nesting()),
        Err(e) => Err(e),
    }
}

/// What the text of a bare path compiles to.
pub open spec fn compiled_path(source: Seq<char>) -> Result<AstV, QueryFault> {
    match parsed_path(source) {
        Ok(p) => lowered_path(p, no_scope()),
        Err(e) => Err(e),
    }
}

/// Parses and lowers a query without parameters.
pub fn compile(source: &str) -> (r: Result<Ast, QueryError>)
    ensures
        outcome(r) == compiled(source@, Seq::empty()),
{
    let none: Vec<(String, ParamValue)> = Vec::new();
    assert(param_views(none@) =~= Seq::empty());
    compile_with_params(source, &none)
}

/// Parses and lowers a query, with `params` for its `$name`s. A `$name` that
/// has no value is an error.
pub fn compile_with_params(source: &str, params: &Vec<(String, ParamValue)>) -> (r: Result<
    Ast,
    QueryError,
>)
    ensures
        outcome(r) == compiled(source@, param_views(params@)),
{
    match parse(source) {
        Ok(q) => lower_query(&q, params),
        Err(e) => Err(e),
    }
}

/// Parses and lowers a bare path, as it stands behind `from` and `join`.
pub fn compile_path_only(source: &str) -> (r: Result<Ast, QueryError>)
    ensures
        outcome(r) == compiled_path(source@),
{
    match parse_path_only(source) {
        Ok(p) => lower_path_only(&p),
        Err(e) => Err(e),
    }
}

/// The layout of a query reads back as that query.
pub open spec fn reads_back(q: QueryV) -> bool {
    parsed_query(query_text(q)) == Ok::<_, QueryFault>(q)
}

/// The layout of a regular query reads back.
pub proof fn layouts_read_back(q: QueryV)
    requires
        regular_query(q),
    ensures
        reads_back(q),
{
    let s = query_text(q);
    let ks = query_toks(q);
    gives_query(q);
    reads_all(s, 0, false, ks, value_after(ks, false));
    let t = tokens_of(s)->Ok_0;
    let all = ks.push(Tok::Eof);
    assert(kinds(t) == all);
    assert(kinds(t).len() == ks.len() + 1);
    assert forall|k: int| 0 <= k <= ks.len() implies t[k].kind == all[k] by {
        assert(kinds(t)[k] == all[k]);
    }
    assert forall|k: int| 0 <= k < ks.len() implies t[0 + k].kind == #[trigger] ks[k] by {
        assert(t[k].kind == all[k]);
    }
    assert(t[ks.len() as int].kind == all[ks.len() as int]);
    query_reads(t, q);
}

/// A regular query is laid out, whatever its text.
pub proof fn regular_queries_are_laid_out(source: Seq<char>, q: QueryV)
    requires
        parsed_query(source) == Ok::<_, QueryFault>(q),
        regular_query(q),
    ensures
        formatted(source) == Ok::<_, QueryFault>(query_text(q)),
{
    layouts_read_back(q);
}

/// A query text in the fixed layout. A text whose layout would not read back
/// stays as it is.
pub open spec fn formatted(source: Seq<char>) -> Result<Seq<char>, QueryFault> {
    match parsed_query(source) {
        Ok(q) => Ok(
            if reads_back(q) {
                query_text(q)
            } else {
                source
            },
        ),
        Err(e) => Err(e),
    }
}

/// Formatting changes no query, and what is formatted stays as it is.
pub proof fn formatting_reads_back(source: Seq<char>, text: Seq<char>)
    requires
        formatted(source) == Ok::<_, QueryFault>(text),
    ensures
        parsed_query(source) is Ok,
        parsed_query(text) == parsed_query(source),
        formatted(text) == Ok::<_, QueryFault>(text),
{
}

/// A formatted query compiles to the same tree.
pub proof fn formatting_keeps_the_tree(
    source: Seq<char>,
    text: Seq<char>,
    params: Seq<(Seq<char>, ParamV)>,
)
    requires
        formatted(source) == Ok::<_, QueryFault>(text),
    ensures
        compiled(text, params) == compiled(source, params),
{
    formatting_reads_back(source, text);
}

/// The query `source` in the fixed layout.
pub fn format(source: &str) -> (r: Result<String, QueryError>)
    ensures
        match r {
            Ok(s) => formatted(source@) == Ok::<_, QueryFault>(s@),
            Err(e) => formatted(source@) == Err::<Seq<char>, _>(e@),
        },
{
    let q = match parse(source) {
        Ok(q) => q,
        Err(e) => return Err(e),
    };
    let text = format_query(&q);
    let same = match parse(text.as_str()) {
        Ok(back) => same_query(&back, &q),
        Err(_) => false,
    };
    if same {
        Ok(text)
    } else {
        Ok(source.to_string())
    }
}

} // verus!
