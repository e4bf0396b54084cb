//! Queries on an opened document, as an editor asks for them: run, render,
//! index, sample, colour, complete and format.
use vstd::prelude::*;

use crate::document::{Document, NodeKind, NULL_NODE};
use crate::path::parents_first;
use crate::query::ast::{Ast, AstV};
use crate::query::canonical::canon;
use crate::query::evaluator::search::{finds, text_search};
use crate::query::evaluator::queries::{
    answers, ascending, collect_keys, collect_kinds, has_key, is_index_of, kind_bits, run,
    sample, texts_of, whole, EvalOutput,
};
use crate::query::evaluator::render::{
    json_of, preview_of, value_preview, write_value_json, QueryResult,
};
use crate::query::evaluator::stream::EvalError;
use crate::query::grammar::category_text;
use crate::query::index::{buckets_bytes, ForeignKeyIndex, IndexName, IndexRegistry};
use crate::query::number::{nums, Numbers, Nums};
use crate::query::surface::completion::{classify, completion_at, mode_str, mode_text, Completion};
use crate::query::surface::{compile_path_only, compiled, compiled_path};
use crate::query::ui_lexer::{paints, tokenize_for_ui, ui_spans, utf16_len, UiSpan, UiToken};
use crate::query::value::{Value, ValueV};
use crate::query::{compile, surface, QueryError, QueryFault};
use crate::render::{
    csv_lines, elements_text, ndjson_text, render_csv, render_json_array, render_ndjson,
};
use crate::text::{decimal, decimal_text, json_escaped, push_json_escaped};

verus! {

pub const ENGINE_RENDER_NDJSON: u8 = 0;

pub const ENGINE_RENDER_JSON_ARRAY: u8 = 1;

pub const ENGINE_RENDER_CSV: u8 = 2;

/// How many bytes of a value a preview shows.
pub const PREVIEW_CAP: usize = 80;

/// What a result list shows of a row.
#[derive(Debug)]
pub struct RowPresentation {
    pub preview: String,
    pub full_text: String,
}

/// The answer to a query, with what is shown of each row.
#[derive(Debug)]
pub struct QueryResults {
    pub results: Vec<QueryResult>,
    pub hit_limit: bool,
    /// The source and the key of an index that the query lacked.
    pub missing_index: Option<(String, String)>,
    /// How many rows the sources emitted.
    pub scanned_rows: u64,
    /// How many lookups found their index.
    pub lookup_calls: u64,
    /// How many bytes of the document the rows of the sources span.
    pub scanned_bytes: u64,
    pub presentation: Vec<RowPresentation>,
}

/// A container of the document: its children are fetched when it is opened,
/// so its text is left out.
pub open spec fn is_node_container(r: QueryResult) -> bool {
    r.value@ is Node && (r.kind == NodeKind::Array.code() || r.kind == NodeKind::Object.code())
}

/// `p` is what is shown of the row `r`.
pub open spec fn presents(p: RowPresentation, doc: Document, n: Nums, r: QueryResult) -> bool {
    &&& p.preview@ == preview_of(doc, n, r.value@, PREVIEW_CAP as nat)
    &&& p.full_text@ == if is_node_container(r) {
        Seq::empty()
    } else {
        json_of(doc, n, r.value@)
    }
}

pub open spec fn presents_all(
    p: Seq<RowPresentation>,
    doc: Document,
    n: Nums,
    r: Seq<QueryResult>,
) -> bool {
    p.len() == r.len() && forall|i: int|
        0 <= i < p.len() ==> presents(#[trigger] p[i], doc, n, r[i])
}

fn build_presentation<N: Numbers>(results: &Vec<QueryResult>, doc: &Document, num: &N) -> (out: Vec<
    RowPresentation,
>)
    requires
        num.wf(),
    ensures
        presents_all(out@, *doc, nums(num), results@),
{
    let mut out: Vec<RowPresentation> = Vec::new();
    let mut i: usize = 0;
    while i < results.len()
        invariant
            num.wf(),
            i <= results@.len(),
            out@.len() == i,
            forall|k: int| 0 <= k < i ==> presents(#[trigger] out@[k], *doc, nums(num), results@[k]),
        decreases results@.len() - i,
    {
        let r = &results[i];
        let preview = value_preview(doc, num, &r.value, PREVIEW_CAP);
        let node = match &r.value {
            Value::Node(_) => true,
            _ => false,
        };
        let container = r.kind == NodeKind::Array.to_u8() || r.kind == NodeKind::Object.to_u8();
        let full_text = if node && container {
            let none = String::new();
            assert(none@ =~= Seq::empty());
            none
        } else {
            write_value_json(doc, num, &r.value)
        };
        out.push(RowPresentation { preview, full_text });
        i += 1;
    }
    out
}

/// `q` is the output `out`, with what is shown of it.
pub open spec fn is_results(q: QueryResults, doc: Document, n: Nums, out: EvalOutput) -> bool {
    &&& q.results == out.results
    &&& q.hit_limit == out.hit_limit
    &&& match out.error {
        Some(EvalError::MissingIndex { source, key }) => q.missing_index matches Some(m) && m.0
            == source && m.1 == key,
        None => q.missing_index is None,
    }
    &&& q.scanned_rows == out.scanned_rows
    &&& q.lookup_calls == out.lookup_calls
    &&& q.scanned_bytes == out.scanned_bytes
    &&& presents_all(q.presentation@, doc, n, q.results@)
}

fn results_of<N: Numbers>(out: EvalOutput, doc: &Document, num: &N) -> (q: QueryResults)
    requires
        num.wf(),
    ensures
        is_results(q, *doc, nums(num), out),
{
    let presentation = build_presentation(&out.results, doc, num);
    let missing_index = match out.error {
        Some(EvalError::MissingIndex { source, key }) => Some((source, key)),
        None => None,
    };
    QueryResults {
        results: out.results,
        hit_limit: out.hit_limit,
        missing_index,
        scanned_rows: out.scanned_rows,
        lookup_calls: out.lookup_calls,
        scanned_bytes: out.scanned_bytes,
        presentation,
    }
}

/// `q` is the answer to a compiled query on the whole document.
pub open spec fn answered(
    q: QueryResults,
    doc: Document,
    n: Nums,
    indexes: IndexRegistry,
    a: AstV,
    limit: u32,
) -> bool {
    exists|out: EvalOutput|
        answers(out, doc, n, indexes, a, 0, limit as nat) && #[trigger] is_results(q, doc, n, out)
}

/// Compiles and runs a query on the whole document. A document without
/// records has no answer.
pub fn engine_query_run<N: Numbers>(
    doc: &Document,
    num: &N,
    indexes: &IndexRegistry,
    query: &str,
    limit: u32,
) -> (r: Result<Option<QueryResults>, QueryError>)
    requires
        num.wf(),
        indexes.wf(),
        parents_first(*doc),
        doc.records@.len() <= NULL_NODE,
    ensures
        match compiled(query@, Seq::empty()) {
            Err(f) => r matches Err(e) && e@ == f,
            Ok(a) => if doc.records@.len() == 0 {
                r matches Ok(None)
            } else {
                r matches Ok(Some(q)) && answered(q, *doc, nums(num), *indexes, a, limit)
            },
        },
{
    let ast = match compile(query) {
        Ok(a) => a,
        Err(e) => {
            return Err(e);
        },
    };
    if doc.records.len() == 0 {
        return Ok(None);
    }
    let out = run(doc, num, indexes, &ast, 0, limit as usize);
    Ok(Some(results_of(out, doc, num)))
}

/// `q` is the answer to a search.
pub open spec fn found(q: QueryResults, doc: Document, n: Nums, needle: Seq<u8>, limit: u32) -> bool {
    exists|out: EvalOutput|
        finds(out, doc, n, needle, limit as nat) && #[trigger] is_results(q, doc, n, out)
}

/// Searches the document for a text. An empty text has no answer.
pub fn engine_query_text_search<N: Numbers>(doc: &Document, num: &N, needle: &[u8], limit: u32) -> (r:
    Option<QueryResults>)
    requires
        num.wf(),
        parents_first(*doc),
    ensures
        match r {
            Some(q) => needle@.len() > 0 && found(q, *doc, nums(num), needle@, limit),
            None => needle@.len() == 0,
        },
{
    if needle.len() == 0 {
        return None;
    }
    let out = text_search(doc, num, needle, limit as usize);
    Some(results_of(out, doc, num))
}

/// A row as a list reads it.
#[derive(Debug)]
pub struct EngineQueryResultView<'a> {
    pub node_id: u32,
    pub kind: u8,
    pub path: &'a str,
    pub preview: &'a str,
    pub full_text: &'a str,
}

/// The node that a row leads to: the row itself, or the first of its group.
pub open spec fn leads_to(v: ValueV) -> u32 {
    match v {
        ValueV::Node(id) => id,
        ValueV::GroupList { members, .. } => if members.len() > 0 {
            members[0]
        } else {
            NULL_NODE
        },
        _ => NULL_NODE,
    }
}

pub fn row_node(v: &Value) -> (id: u32)
    ensures
        id == leads_to(v@),
{
    match v {
        Value::Node(id) => *id,
        Value::GroupList { members, .. } => if members.len() > 0 {
            members[0]
        } else {
            NULL_NODE
        },
        _ => NULL_NODE,
    }
}

/// The row `idx` of an answer, if there is one.
pub fn engine_query_results_at<'a>(q: &'a QueryResults, idx: u32) -> (r: Option<
    EngineQueryResultView<'a>,
>)
    ensures
        (idx < q.results@.len() && idx < q.presentation@.len()) == (r is Some),
        r matches Some(v) ==> {
            let row = q.results@[idx as int];
            &&& v.node_id == leads_to(row.value@)
            &&& v.kind == row.kind
            &&& v.path@ == row.path@
            &&& v.preview@ == q.presentation@[idx as int].preview@
            &&& v.full_text@ == q.presentation@[idx as int].full_text@
        },
{
    let i: usize = idx as usize;
    if i < q.results.len() && i < q.presentation.len() {
        let row = &q.results[i];
        let shown = &q.presentation[i];
        Some(
            EngineQueryResultView {
                node_id: row_node(&row.value),
                kind: row.kind,
                path: row.path.as_str(),
                preview: shown.preview.as_str(),
                full_text: shown.full_text.as_str(),
            },
        )
    } else {
        None
    }
}

/// Some rows in an output format; none for an unknown format.
pub open spec fn rendered(doc: Document, n: Nums, r: Seq<QueryResult>, format: u8) -> Option<
    Seq<char>,
> {
    if format == ENGINE_RENDER_NDJSON {
        Some(ndjson_text(doc, n, r))
    } else if format == ENGINE_RENDER_JSON_ARRAY {
        Some("[\n"@ + elements_text(doc, n, r) + "\n]\n"@)
    } else if format == ENGINE_RENDER_CSV {
        Some(csv_lines(doc, n, r))
    } else {
        None
    }
}

/// Runs a query and renders its rows. A query that lacks an index, and an
/// unknown format, give no text.
pub fn engine_query_run_and_render<N: Numbers>(
    doc: &Document,
    num: &N,
    indexes: &IndexRegistry,
    query: &str,
    limit: u32,
    format: u8,
) -> (r: Result<Option<String>, QueryError>)
    requires
        num.wf(),
        indexes.wf(),
        parents_first(*doc),
        doc.records@.len() <= NULL_NODE,
    ensures
        match compiled(query@, Seq::empty()) {
            Err(f) => r matches Err(e) && e@ == f,
            Ok(a) => r matches Ok(o) && exists|out: EvalOutput| #[trigger]
                answers(out, *doc, nums(num), *indexes, a, 0, limit as nat) && if out.error is Some {
                    o is None
                } else {
                    match rendered(*doc, nums(num), out.results@, format) {
                        Some(t) => o matches Some(s) && s@ == t,
                        None => o is None,
                    }
                },
        },
{
    let ast = match compile(query) {
        Ok(a) => a,
        Err(e) => {
            return Err(e);
        },
    };
    let out = run(doc, num, indexes, &ast, 0, limit as usize);
    assert(answers(out, *doc, nums(num), *indexes, ast@, 0, limit as nat));
    if out.error.is_some() {
        return Ok(None);
    }
    let rows = out.results.as_slice();
    if format == ENGINE_RENDER_NDJSON {
        Ok(Some(render_ndjson(rows, doc, num)))
    } else if format == ENGINE_RENDER_JSON_ARRAY {
        Ok(Some(render_json_array(rows, doc, num)))
    } else if format == ENGINE_RENDER_CSV {
        Ok(Some(render_csv(rows, doc, num)))
    } else {
        Ok(None)
    }
}

/// What an index holds.
#[derive(Debug)]
pub struct EngineIndexStats {
    /// The nodes of the source.
    pub source_count: u64,
    /// Those of them that have a key.
    pub indexed_count: u64,
    /// The different keys.
    pub bucket_count: u64,
    /// Roughly the memory that the index takes.
    pub approx_bytes: u64,
}

pub open spec fn is_stats(s: EngineIndexStats, x: ForeignKeyIndex) -> bool {
    &&& s.source_count == x.source_count
    &&& s.indexed_count == x.indexed_count
    &&& s.bucket_count == x.buckets@.len()
    &&& s.approx_bytes == if buckets_bytes(x.buckets@) < usize::MAX {
        buckets_bytes(x.buckets@)
    } else {
        usize::MAX as nat
    }
}

/// Builds the index of a source path and a key path, and registers it under
/// their canonical forms, in place of an earlier one.
pub fn engine_query_create_index<N: Numbers>(
    doc: &Document,
    num: &N,
    indexes: &mut IndexRegistry,
    source_expr: &str,
    key_expr: &str,
) -> (r: Result<EngineIndexStats, QueryError>)
    requires
        num.wf(),
        old(indexes).wf(),
        doc.records@.len() <= NULL_NODE,
    ensures
        final(indexes).wf(),
        match compiled_path(source_expr@) {
            Err(f) => r matches Err(e) && e@ == f && *final(indexes) == *old(indexes),
            Ok(s) => match compiled_path(key_expr@) {
                Err(f) => r matches Err(e) && e@ == f && *final(indexes) == *old(indexes),
                Ok(k) => {
                    let name = IndexName { source: canon(s), key: canon(k) };
                    &&& r matches Ok(stats) && exists|x: ForeignKeyIndex|
                        {
                            &&& #[trigger] final(indexes).holds(name, x)
                            &&& is_index_of(x, whole(*doc, nums(num), *old(indexes)), s, k)
                            &&& is_stats(stats, x)
                        }
                    &&& forall|n: IndexName, x: ForeignKeyIndex|
                        n != name ==> #[trigger] final(indexes).holds(n, x) == old(indexes).holds(
                            n,
                            x,
                        )
                },
            },
        },
{
    let source = match compile_path_only(source_expr) {
        Ok(a) => a,
        Err(e) => {
            return Err(e);
        },
    };
    let key = match compile_path_only(key_expr) {
        Ok(a) => a,
        Err(e) => {
            return Err(e);
        },
    };
    let index = ForeignKeyIndex::build(doc, num, indexes, &source, &key);
    let stats = EngineIndexStats {
        source_count: index.source_count as u64,
        indexed_count: index.indexed_count as u64,
        bucket_count: index.buckets.len() as u64,
        approx_bytes: index.approx_bytes() as u64,
    };
    assert(is_stats(stats, index));
    indexes.insert(source.canonical(), key.canonical(), index);
    Ok(stats)
}

/// What a text compiles to as a query or, failing that, as a bare path.
pub open spec fn query_or_path(s: Seq<char>) -> Option<AstV> {
    match compiled(s, Seq::empty()) {
        Ok(a) => Some(a),
        Err(_) => match compiled_path(s) {
            Ok(a) => Some(a),
            Err(_) => None,
        },
    }
}

fn compile_query_or_path(s: &str) -> (r: Option<Ast>)
    ensures
        match query_or_path(s@) {
            Some(a) => r matches Some(x) && x@ == a,
            None => r is None,
        },
{
    match compile(s) {
        Ok(a) => Some(a),
        Err(_) => match compile_path_only(s) {
            Ok(a) => Some(a),
            Err(_) => None,
        },
    }
}

/// The kinds among the first `limit` values of a query or a path, as bits;
/// 0 where the text is neither.
pub fn engine_kinds_for_query<N: Numbers>(
    doc: &Document,
    num: &N,
    indexes: &IndexRegistry,
    query: &str,
    limit: u32,
) -> (mask: u8)
    requires
        num.wf(),
        indexes.wf(),
        doc.records@.len() <= NULL_NODE,
    ensures
        mask == match query_or_path(query@) {
            Some(a) => kind_bits(*doc, sample(*doc, nums(num), *indexes, a, limit as nat)),
            None => 0,
        },
{
    match compile_query_or_path(query) {
        Some(a) => collect_kinds(doc, num, indexes, &a, limit as usize),
        None => 0,
    }
}

/// A list of texts as a JSON array of strings, up to its closing bracket.
pub open spec fn strings_json(v: Seq<Seq<char>>) -> Seq<char>
    decreases v.len(),
{
    if v.len() == 0 {
        "["@
    } else {
        strings_json(v.drop_last()) + (if v.len() > 1 {
            ","@
        } else {
            Seq::empty()
        }) + "\""@ + json_escaped(v.last()) + "\""@
    }
}

/// The keys of the objects among the first `limit` values of a query or a
/// path, as a JSON array; none where there is no key or the text is neither.
pub fn engine_keys_for_query<N: Numbers>(
    doc: &Document,
    num: &N,
    indexes: &IndexRegistry,
    query: &str,
    limit: u32,
) -> (r: Option<String>)
    requires
        num.wf(),
        indexes.wf(),
        doc.records@.len() <= NULL_NODE,
    ensures
        match query_or_path(query@) {
            Some(a) => exists|keys: Seq<Seq<char>>|
                {
                    &&& #[trigger] ascending(keys)
                    &&& forall|t: Seq<char>| #[trigger]
                        keys.contains(t) <==> has_key(
                            *doc,
                            sample(*doc, nums(num), *indexes, a, limit as nat),
                            t,
                        )
                    &&& if keys.len() == 0 {
                        r is None
                    } else {
                        r matches Some(s) && s@ == strings_json(keys) + "]"@
                    }
                },
            None => r is None,
        },
{
    let ast = match compile_query_or_path(query) {
        Some(a) => a,
        None => {
            return None;
        },
    };
    let keys = collect_keys(doc, num, indexes, &ast, limit as usize);
    let ghost all = texts_of(keys@);
    assert(ascending(all));
    assert(all.len() == keys@.len());
    if keys.len() == 0 {
        return None;
    }
    let mut out = "[".to_owned();
    let mut i: usize = 0;
    assert(all.take(0).len() == 0);
    while i < keys.len()
        invariant
            i <= keys@.len(),
            all == texts_of(keys@),
            all.len() == keys@.len(),
            out@ == strings_json(all.take(i as int)),
        decreases keys@.len() - i,
    {
        proof {
            let next = all.take(i + 1);
            assert(next.drop_last() =~= all.take(i as int));
            assert(next.last() == keys@[i as int]@);
        }
        if i > 0 {
            out.append(",");
        } else {
            assert(out@ + Seq::<char>::empty() =~= out@);
        }
        out.append("\"");
        push_json_escaped(&mut out, keys[i].as_str());
        out.append("\"");
        i += 1;
    }
    assert(all.take(i as int) =~= all);
    out.append("]");
    Some(out)
}

/// What a query gives, for completing a field of it: the kinds of its values
/// as bits, and the keys of its objects.
#[derive(Debug)]
pub struct FieldSchema {
    pub kinds: u8,
    pub keys: Vec<String>,
}

/// Samples the values of a query or a path. A text that is neither gives an
/// empty schema.
pub fn query_schema<N: Numbers>(
    doc: &Document,
    num: &N,
    indexes: &IndexRegistry,
    query: &str,
    limit: u32,
) -> (r: FieldSchema)
    requires
        num.wf(),
        indexes.wf(),
        doc.records@.len() <= NULL_NODE,
    ensures
        match query_or_path(query@) {
            Some(a) => {
                let v = sample(*doc, nums(num), *indexes, a, limit as nat);
                &&& r.kinds == kind_bits(*doc, v)
                &&& ascending(texts_of(r.keys@))
                &&& forall|t: Seq<char>| #[trigger]
                    texts_of(r.keys@).contains(t) <==> has_key(*doc, v, t)
            },
            None => r.kinds == 0 && r.keys@.len() == 0,
        },
{
    match compile_query_or_path(query) {
        Some(a) => FieldSchema {
            kinds: collect_kinds(doc, num, indexes, &a, limit as usize),
            keys: collect_keys(doc, num, indexes, &a, limit as usize),
        },
        None => FieldSchema { kinds: 0, keys: Vec::new() },
    }
}

/// A coloured token as JSON.
pub open spec fn token_json(s: Seq<char>, p: UiSpan) -> Seq<char> {
    "{\"category\":\""@ + category_text(p.category) + "\",\"offset\":"@ + decimal_text(
        utf16_len(s.take(p.start)),
    ) + ",\"length\":"@ + decimal_text(utf16_len(s.subrange(p.start, p.end))) + "}"@
}

/// Coloured tokens as a JSON array, up to its closing bracket.
pub open spec fn tokens_json(s: Seq<char>, v: Seq<UiSpan>) -> Seq<char>
    decreases v.len(),
{
    if v.len() == 0 {
        "["@
    } else {
        tokens_json(s, v.drop_last()) + (if v.len() > 1 {
            ","@
        } else {
            Seq::empty()
        }) + token_json(s, v.last())
    }
}

fn token_text(t: &UiToken, s: Ghost<Seq<char>>, p: Ghost<UiSpan>) -> (out: String)
    requires
        paints(*t, s@, p@),
    ensures
        out@ == token_json(s@, p@),
{
    let mut out = "{\"category\":\"".to_owned();
    out.append(t.category.as_str());
    out.append("\",\"offset\":");
    let offset = decimal(t.offset as u64);
    out.append(offset.as_str());
    out.append(",\"length\":");
    let length = decimal(t.length as u64);
    out.append(length.as_str());
    out.append("}");
    out
}

/// The coloured tokens of a query, as JSON. Offsets and lengths count UTF-16
/// units.
pub fn engine_tokenize(source: &str) -> (out: String)
    requires
        utf16_len(source@) <= u32::MAX,
    ensures
        out@ == tokens_json(source@, ui_spans(source@, 0)) + "]"@,
{
    let tokens = tokenize_for_ui(source);
    let ghost all = ui_spans(source@, 0);
    let mut out = "[".to_owned();
    let mut i: usize = 0;
    assert(all.take(0).len() == 0);
    while i < tokens.len()
        invariant
            i <= tokens@.len(),
            all == ui_spans(source@, 0),
            all.len() == tokens@.len(),
            forall|j: int| 0 <= j < tokens@.len() ==> paints(#[trigger] tokens@[j], source@, all[j]),
            out@ == tokens_json(source@, all.take(i as int)),
        decreases tokens@.len() - i,
    {
        proof {
            let next = all.take(i + 1);
            assert(next.drop_last() =~= all.take(i as int));
            assert(next.last() == all[i as int]);
        }
        if i > 0 {
            out.append(",");
        } else {
            assert(out@ + Seq::<char>::empty() =~= out@);
        }
        let t = token_text(&tokens[i], Ghost(source@), Ghost(all[i as int]));
        out.append(t.as_str());
        i += 1;
    }
    assert(all.take(i as int) =~= all);
    out.append("]");
    out
}

/// A completion context as JSON.
pub open spec fn completion_json(c: Completion) -> Seq<char> {
    "{\"mode\":\""@ + mode_text(c.mode) + "\",\"partial\":\""@ + json_escaped(c.partial)
        + "\",\"partialUtf16Length\":"@ + decimal_text(c.partial_utf16_length as nat) + match c.context_query {
        Some(q) => ",\"contextQuery\":\""@ + json_escaped(q) + "\""@,
        None => Seq::empty(),
    } + "}"@
}

/// What may be completed at a cursor, as JSON; none where nothing may.
pub fn engine_completion_context(source: &str, cursor_utf16: u32) -> (r: Option<String>)
    ensures
        match completion_at(source@, cursor_utf16 as nat) {
            Some(c) => r matches Some(s) && s@ == completion_json(c),
            None => r is None,
        },
{
    let c = match classify(source, cursor_utf16) {
        Some(c) => c,
        None => {
            return None;
        },
    };
    let mut out = "{\"mode\":\"".to_owned();
    out.append(mode_str(&c.mode));
    out.append("\",\"partial\":\"");
    push_json_escaped(&mut out, c.partial.as_str());
    out.append("\",\"partialUtf16Length\":");
    let n = decimal(c.partial_utf16_length as u64);
    out.append(n.as_str());
    let mut tail = String::new();
    assert(tail@ =~= Seq::empty());
    if let Some(q) = &c.context_query {
        tail = ",\"contextQuery\":\"".to_owned();
        push_json_escaped(&mut tail, q.as_str());
        tail.append("\"");
    }
    out.append(tail.as_str());
    out.append("}");
    Some(out)
}

/// A query in the fixed layout.
pub fn engine_format_query(query: &str) -> (r: Result<String, QueryError>)
    ensures
        match r {
            Ok(s) => surface::formatted(query@) == Ok::<_, QueryFault>(s@),
            Err(e) => surface::formatted(query@) == Err::<Seq<char>, _>(e@),
        },
{
    surface::format(query)
}

} // verus!
