//! What callers ask of the evaluator: to run a query, to build the indexes it
//! needs, to sample the kinds and keys of its results, and to search for text.
use vstd::prelude::*;

use super::super::ast::{Ast, AstV};
use super::super::index::{ForeignKeyIndex, IndexName, IndexRegistry, ScalarKey, ScalarKeyV};
use super::super::number::{nums, Numbers, Nums};
use super::super::order::{before, rank_texts, text_order, Rank};
use super::super::value::{Value, ValueV};
use super::counts::cost;
use super::groups::nodes_in;
use super::lookups::{collect_lookups, found, lookups};
use super::model::{first, key_of, node_ids, values_of, CtxV, EnvV};
use super::render::{is_row_of, make_result, QueryResult};
use super::scan::{object_keys, scan_object_keys, seen};
use super::semantics::run as stream_of;
use super::stream::{err_view, row_values, Ctx, Env, EvalError};
use super::tally::{capped, tally, Counts};
use super::walk::walk;
use crate::document::{Document, NodeKind, NULL_NODE};
use crate::path::parents_first;

verus! {

/// No names bound.
pub open spec fn no_env() -> EnvV {
    EnvV { binds: Seq::empty(), slots: Seq::empty() }
}

/// An evaluation outside of a query: nested queries start from the first
/// node, and no row is left out.
pub open spec fn whole(doc: Document, n: Nums, indexes: IndexRegistry) -> CtxV {
    CtxV { doc, n, indexes, root: 0, cap: None }
}

/// The key under which an index files a node.
pub open spec fn key_at(c: CtxV, key: AstV, id: u32) -> Option<ScalarKeyV> {
    match first(stream_of(c, key, no_env(), ValueV::Node(id))) {
        Ok(Some(v)) => key_of(c.doc, c.n, v),
        _ => None,
    }
}

/// The nodes that an index looks at.
pub open spec fn candidates(c: CtxV, source: AstV) -> Seq<u32> {
    node_ids(values_of(stream_of(c, source, no_env(), ValueV::Node(0)).rows))
}

/// The nodes with this key.
pub open spec fn filed(c: CtxV, key: AstV, ids: Seq<u32>, k: ScalarKeyV) -> Seq<u32>
    decreases ids.len(),
{
    if ids.len() == 0 {
        Seq::empty()
    } else if key_at(c, key, ids.last()) == Some(k) {
        filed(c, key, ids.drop_last(), k).push(ids.last())
    } else {
        filed(c, key, ids.drop_last(), k)
    }
}

/// How many nodes have a key.
pub open spec fn filed_count(c: CtxV, key: AstV, ids: Seq<u32>) -> nat
    decreases ids.len(),
{
    if ids.len() == 0 {
        0
    } else {
        filed_count(c, key, ids.drop_last()) + if key_at(c, key, ids.last()) is Some {
            1nat
        } else {
            0
        }
    }
}

/// `x` files the nodes of `source` under their `key`.
pub open spec fn is_index_of(x: ForeignKeyIndex, c: CtxV, source: AstV, key: AstV) -> bool {
    let ids = candidates(c, source);
    &&& x.wf()
    &&& x.source_count == ids.len()
    &&& x.indexed_count == filed_count(c, key, ids)
    &&& forall|k: ScalarKeyV| #[trigger] x.rows(k) == some_rows(filed(c, key, ids, k))
}

pub open spec fn some_rows(s: Seq<u32>) -> Option<Seq<u32>> {
    if s.len() == 0 {
        None
    } else {
        Some(s)
    }
}

impl ForeignKeyIndex {
    /// Files the nodes of `source` under their `key`.
    #[verifier::spinoff_prover]
    pub fn build<N: Numbers>(
        doc: &Document,
        num: &N,
        indexes: &IndexRegistry,
        source: &Ast,
        key: &Ast,
    ) -> (x: ForeignKeyIndex)
        requires
            num.wf(),
            indexes.wf(),
            doc.records@.len() <= NULL_NODE,
        ensures
            is_index_of(x, whole(*doc, nums(num), *indexes), source@, key@),
    {
        let c = Ctx { doc, num, indexes, root: 0, cap: None };
        let ghost cv = whole(*doc, nums(num), *indexes);
        assert(c@ == cv);
        let env = Env::new();
        let rows = walk(&c, source, &env, &Value::Node(0)).rows;
        let values = row_values(&rows);
        let ids = nodes_in(&values);
        let mut x = ForeignKeyIndex::new();
        x.source_count = ids.len();
        let ghost fresh = x;
        assert forall|k: ScalarKeyV| #[trigger] x.rows(k) == some_rows(
            filed(cv, key@, ids@.take(0), k),
        ) by {
            assert(ForeignKeyIndex { source_count: 0, ..fresh }.rows(k) is None);
        }
        let mut i: usize = 0;
        while i < ids.len()
            invariant
                c.wf(),
                c@ == cv,
                num.wf(),
                cv == whole(*doc, nums(num), *indexes),
                env@ == no_env(),
                i <= ids@.len(),
                x.wf(),
                x.source_count == ids@.len(),
                x.indexed_count == filed_count(cv, key@, ids@.take(i as int)),
                x.indexed_count <= i,
                forall|k: ScalarKeyV| #[trigger]
                    x.rows(k) == some_rows(filed(cv, key@, ids@.take(i as int), k)),
            decreases ids@.len() - i,
        {
            let ghost prev = x;
            let ghost here = ids@.take(i as int);
            let ghost next = ids@.take(i + 1);
            proof {
                assert(next.drop_last() =~= here);
                assert(next.last() == ids@[i as int]);
            }
            let o = match walk(&c, key, &env, &Value::Node(ids[i])).first() {
                Ok(o) => o,
                Err(_) => None,
            };
            let k = match &o {
                Some(v) => ScalarKey::from_value(doc, num, v),
                None => None,
            };
            let ghost at = key_at(cv, key@, ids@[i as int]);
            if let Some(k) = k {
                assert(at == Some(k@));
                let ghost kv = k@;
                x.add(k, ids[i]);
                assert forall|j: ScalarKeyV| #[trigger] x.rows(j) == some_rows(
                    filed(cv, key@, next, j),
                ) by {
                    assert(prev.rows(j) == some_rows(filed(cv, key@, here, j)));
                    if j == kv {
                        let f = filed(cv, key@, here, j);
                        if f.len() == 0 {
                            assert(seq![ids@[i as int]] =~= f.push(ids@[i as int]));
                        }
                    }
                }
            } else {
                assert(at is None);
                assert forall|j: ScalarKeyV| #[trigger] x.rows(j) == some_rows(
                    filed(cv, key@, next, j),
                ) by {
                    assert(prev.rows(j) == some_rows(filed(cv, key@, here, j)));
                }
            }
            i += 1;
        }
        assert(ids@.take(i as int) =~= ids@);
        x
    }
}

/// The name of the index that a lookup asks for.
pub open spec fn name_of(a: AstV) -> IndexName {
    match a {
        AstV::Lookup { source_canon, key_canon, .. } => IndexName {
            source: source_canon,
            key: key_canon,
        },
        _ => IndexName { source: Seq::empty(), key: Seq::empty() },
    }
}

/// `x` is the index that one of these lookups asks for, built with the
/// indexes that were there.
pub open spec fn built_for(doc: Document, n: Nums, l: Seq<AstV>, name: IndexName, x: ForeignKeyIndex) -> bool {
    exists|i: int, g: IndexRegistry|
        0 <= i < l.len() && name_of(#[trigger] l[i]) == name && #[trigger] serves(doc, n, l[i], g, x)
}

/// `x` is the index of a lookup, built with the indexes `g`.
pub open spec fn serves(doc: Document, n: Nums, a: AstV, g: IndexRegistry, x: ForeignKeyIndex) -> bool {
    a matches AstV::Lookup { source, key, .. } && is_index_of(x, whole(doc, n, g), *source, *key)
}

/// Builds the indexes of all lookups in a query that are not there yet.
/// Those that are there stay.
#[verifier::spinoff_prover]
pub fn build_indexes<N: Numbers>(doc: &Document, num: &N, ast: &Ast, indexes: IndexRegistry) -> (r:
    IndexRegistry)
    requires
        num.wf(),
        indexes.wf(),
        doc.records@.len() <= NULL_NODE,
    ensures
        r.wf(),
        forall|n: IndexName, x: ForeignKeyIndex| #[trigger]
            indexes.holds(n, x) ==> r.holds(n, x),
        forall|n: IndexName, x: ForeignKeyIndex| #[trigger]
            r.holds(n, x) ==> indexes.holds(n, x) || built_for(
                *doc,
                nums(num),
                lookups(ast@),
                n,
                x,
            ),
        forall|i: int|
            0 <= i < lookups(ast@).len() && #[trigger] lookups(ast@)[i] is Lookup ==> r.has(
                name_of(lookups(ast@)[i]),
            ),
{
    let ghost l = lookups(ast@);
    let all = collect_lookups(ast);
    let mut r = indexes;
    let mut i: usize = 0;
    while i < all.len()
        invariant
            num.wf(),
            doc.records@.len() <= NULL_NODE,
            i <= all@.len(),
            l == lookups(ast@),
            l == found(all@),
            r.wf(),
            forall|n: IndexName, x: ForeignKeyIndex| #[trigger]
                indexes.holds(n, x) ==> r.holds(n, x),
            forall|n: IndexName, x: ForeignKeyIndex| #[trigger]
                r.holds(n, x) ==> indexes.holds(n, x) || built_for(*doc, nums(num), l, n, x),
            forall|k: int|
                0 <= k < i && #[trigger] l[k] is Lookup ==> r.has(name_of(l[k])),
        decreases all@.len() - i,
    {
        assert(l[i as int] == all@[i as int]@);
        if let Ast::Lookup { source, key, source_canon, key_canon } = all[i] {
            let ghost name = IndexName { source: source_canon@, key: key_canon@ };
            assert(name_of(l[i as int]) == name);
            let missing = r.get(source_canon.as_str(), key_canon.as_str()).is_none();
            if missing {
                let x = ForeignKeyIndex::build(doc, num, &r, source, key);
                let ghost prev = r;
                let ghost xv = x;
                proof {
                    assert(serves(*doc, nums(num), l[i as int], prev, xv));
                    assert(built_for(*doc, nums(num), l, name, xv));
                }
                r.insert(source_canon.clone(), key_canon.clone(), x);
                proof {
                    one_built(prev, r, indexes, name, xv, *doc, nums(num), l);
                    assert forall|k: int| 0 <= k < i && #[trigger] l[k] is Lookup implies r.has(
                        name_of(l[k]),
                    ) by {
                        let m = name_of(l[k]);
                        held_is_had(prev, m);
                        let y = choose|y: ForeignKeyIndex| prev.holds(m, y);
                        if m != name {
                            assert(r.holds(m, y));
                            had_if_held(r, m, y);
                        } else {
                            had_if_held(r, m, xv);
                        }
                    }
                    had_if_held(r, name, xv);
                }
            } else {
                assert(r.has(name));
            }
        }
        i += 1;
    }
    r
}

proof fn held_is_had(r: IndexRegistry, n: IndexName)
    requires
        r.has(n),
    ensures
        exists|x: ForeignKeyIndex| r.holds(n, x),
{
    let i = choose|i: int| 0 <= i < r.entries@.len() && (#[trigger] r.entries@[i]).name() == n;
    assert(r.holds(n, r.entries@[i].index));
}

proof fn had_if_held(r: IndexRegistry, n: IndexName, x: ForeignKeyIndex)
    requires
        r.holds(n, x),
    ensures
        r.has(n),
{
}

/// One more index keeps what was known of the others.
proof fn one_built(
    prev: IndexRegistry,
    r: IndexRegistry,
    start: IndexRegistry,
    name: IndexName,
    x: ForeignKeyIndex,
    doc: Document,
    nv: Nums,
    l: Seq<AstV>,
)
    requires
        r.wf(),
        !prev.has(name),
        r.holds(name, x),
        forall|n: IndexName, y: ForeignKeyIndex|
            n != name ==> #[trigger] r.holds(n, y) == prev.holds(n, y),
        forall|n: IndexName, y: ForeignKeyIndex| #[trigger]
            start.holds(n, y) ==> prev.holds(n, y),
        forall|n: IndexName, y: ForeignKeyIndex| #[trigger]
            prev.holds(n, y) ==> start.holds(n, y) || built_for(doc, nv, l, n, y),
        built_for(doc, nv, l, name, x),
    ensures
        forall|n: IndexName, y: ForeignKeyIndex| #[trigger] start.holds(n, y) ==> r.holds(n, y),
        forall|n: IndexName, y: ForeignKeyIndex| #[trigger]
            r.holds(n, y) ==> start.holds(n, y) || built_for(doc, nv, l, n, y),
{
    assert forall|n: IndexName, y: ForeignKeyIndex| #[trigger] start.holds(n, y) implies r.holds(
        n,
        y,
    ) by {
        assert(prev.holds(n, y));
        had_if_held(prev, n, y);
    }
    assert forall|n: IndexName, y: ForeignKeyIndex| #[trigger] r.holds(n, y) implies start.holds(
        n,
        y,
    ) || built_for(doc, nv, l, n, y) by {
        if n == name {
            super::super::index::registry_is_a_map(r, n, x, y);
        }
    }
}

/// The rows of a query, whether there are more than were asked for, and why
/// it stopped. A query that stopped has no rows.
#[derive(Debug)]
pub struct EvalOutput {
    pub results: Vec<QueryResult>,
    pub hit_limit: bool,
    pub error: Option<EvalError>,
    /// How many rows the sources emitted.
    pub scanned_rows: u64,
    /// How many lookups found their index.
    pub lookup_calls: u64,
    /// How many bytes of the document the rows of the sources span: the
    /// spans of nodes, and of primitives that a source iterates.
    pub scanned_bytes: u64,
}

/// The evaluation of a query: nested queries start from `root`, and sorts
/// keep at most `limit` rows.
pub open spec fn asked(
    doc: Document,
    n: Nums,
    indexes: IndexRegistry,
    root: u32,
    limit: nat,
) -> CtxV {
    CtxV {
        doc,
        n,
        indexes,
        root,
        cap: if limit == 0 {
            None
        } else {
            Some(limit)
        },
    }
}

/// `r` are the rows of these values.
pub open spec fn rows_of(r: Seq<QueryResult>, doc: Document, n: Nums, v: Seq<ValueV>) -> bool {
    r.len() == v.len() && forall|i: int|
        0 <= i < v.len() ==> is_row_of(#[trigger] r[i], doc, n, v[i])
}

/// The counts of `out` are those of a query of which `limit` rows are wanted.
/// Where there are more, one row beyond them is taken, to see that there is
/// one.
pub open spec fn counted(out: EvalOutput, c: CtxV, a: AstV, root: u32, limit: nat) -> bool {
    let s = stream_of(c, a, no_env(), ValueV::Node(root));
    let t = cost(
        c,
        a,
        no_env(),
        ValueV::Node(root),
        if s.rows.len() > limit {
            Some(limit + 1)
        } else {
            None
        },
    );
    &&& out.scanned_rows == capped(t.rows)
    &&& out.lookup_calls == capped(t.lookups)
    &&& out.scanned_bytes == capped(t.bytes)
}

/// `out` is what a query on a node gives.
pub open spec fn answers(
    out: EvalOutput,
    doc: Document,
    n: Nums,
    indexes: IndexRegistry,
    a: AstV,
    root: u32,
    limit: nat,
) -> bool {
    let s = stream_of(asked(doc, n, indexes, root, limit), a, no_env(), ValueV::Node(root));
    counted(out, asked(doc, n, indexes, root, limit), a, root, limit) && if s.rows.len() > limit {
        &&& out.hit_limit
        &&& out.error is None
        &&& rows_of(out.results@, doc, n, values_of(s.rows).take(limit as int))
    } else {
        &&& !out.hit_limit
        &&& err_view(out.error) == s.err
        &&& rows_of(
            out.results@,
            doc,
            n,
            if s.err is Some {
                Seq::empty()
            } else {
                values_of(s.rows)
            },
        )
    }
}

/// Runs a query on a node and takes at most `limit` rows.
pub fn run<N: Numbers>(
    doc: &Document,
    num: &N,
    indexes: &IndexRegistry,
    ast: &Ast,
    root: u32,
    limit: usize,
) -> (out: EvalOutput)
    requires
        num.wf(),
        indexes.wf(),
        parents_first(*doc),
        doc.records@.len() <= NULL_NODE,
    ensures
        answers(out, *doc, nums(num), *indexes, ast@, root, limit as nat),
{
    let cap = if limit == 0 {
        None
    } else {
        Some(limit)
    };
    let c = Ctx { doc, num, indexes, root, cap };
    assert(c@ == asked(*doc, nums(num), *indexes, root, limit as nat));
    let s = walk(&c, ast, &Env::new(), &Value::Node(root));
    let ghost sv = s@;
    assert(sv.rows.len() == s.rows@.len());
    let hit = s.rows.len() > limit;
    let spent = tally(
        &c,
        ast,
        &Env::new(),
        &Value::Node(root),
        if hit {
            Some(limit as u128 + 1)
        } else {
            None
        },
    );
    proof {
        reveal(Counts::fits);
    }
    if !hit && s.err.is_some() {
        return EvalOutput {
            results: Vec::new(),
            hit_limit: false,
            error: s.err,
            scanned_rows: spent.rows,
            lookup_calls: spent.lookups,
            scanned_bytes: spent.bytes,
        };
    }
    let most: usize = if hit {
        limit
    } else {
        s.rows.len()
    };
    let mut results: Vec<QueryResult> = Vec::new();
    let mut i: usize = 0;
    while i < most
        invariant
            num.wf(),
            parents_first(*doc),
            i <= most <= s.rows@.len(),
            results@.len() == i,
            sv == s@,
            forall|k: int|
                0 <= k < i ==> is_row_of(
                    #[trigger] results@[k],
                    *doc,
                    nums(num),
                    sv.rows[k].value,
                ),
        decreases most - i,
    {
        assert(sv.rows[i as int] == s.rows@[i as int]@);
        results.push(make_result(doc, num, s.rows[i].value.copy()));
        i += 1;
    }
    EvalOutput {
        results,
        hit_limit: hit,
        error: None,
        scanned_rows: spent.rows,
        lookup_calls: spent.lookups,
        scanned_bytes: spent.bytes,
    }
}

/// The kind that a sample of values counts a value as.
pub open spec fn sampled_kind(doc: Document, v: ValueV) -> NodeKind {
    match v {
        ValueV::Node(id) => doc.kind_of(id),
        ValueV::Null => NodeKind::Null,
        ValueV::Bool(_) => NodeKind::Bool,
        ValueV::Number(_) => NodeKind::Number,
        ValueV::Group { .. } => NodeKind::Number,
        ValueV::Str(_) => NodeKind::String,
        ValueV::NamedValue { .. } => NodeKind::Object,
        _ => NodeKind::Array,
    }
}

/// Some of these values is of a kind.
pub open spec fn has_kind(doc: Document, v: Seq<ValueV>, k: NodeKind) -> bool {
    exists|i: int| 0 <= i < v.len() && sampled_kind(doc, #[trigger] v[i]) == k
}

pub open spec fn bit(b: bool, weight: u8) -> u8 {
    if b {
        weight
    } else {
        0
    }
}

/// The bits of the kinds of these values, from null at the lowest.
pub open spec fn kind_bits(doc: Document, v: Seq<ValueV>) -> int {
    bit(has_kind(doc, v, NodeKind::Null), 1) + bit(has_kind(doc, v, NodeKind::Bool), 2) + bit(
        has_kind(doc, v, NodeKind::Number),
        4,
    ) + bit(has_kind(doc, v, NodeKind::String), 8) + bit(has_kind(doc, v, NodeKind::Array), 16)
        + bit(has_kind(doc, v, NodeKind::Object), 32)
}

/// The first values of a query on the whole document.
pub open spec fn sample(doc: Document, n: Nums, indexes: IndexRegistry, a: AstV, limit: nat) -> Seq<
    ValueV,
> {
    let v = values_of(stream_of(whole(doc, n, indexes), a, no_env(), ValueV::Node(0)).rows);
    if v.len() > limit {
        v.take(limit as int)
    } else {
        v
    }
}

fn take_sample<N: Numbers>(
    doc: &Document,
    num: &N,
    indexes: &IndexRegistry,
    ast: &Ast,
    limit: usize,
) -> (out: Vec<Value>)
    requires
        num.wf(),
        indexes.wf(),
        doc.records@.len() <= NULL_NODE,
    ensures
        seen(out@) == sample(*doc, nums(num), *indexes, ast@, limit as nat),
{
    let c = Ctx { doc, num, indexes, root: 0, cap: None };
    assert(c@ == whole(*doc, nums(num), *indexes));
    let s = walk(&c, ast, &Env::new(), &Value::Node(0));
    let mut out = row_values(&s.rows);
    let ghost all = out@;
    assert(seen(all).len() == all.len());
    if out.len() > limit {
        out.truncate(limit);
        assert(seen(out@) =~= seen(all).take(limit as int));
    }
    out
}

fn kind_in_sample(doc: &Document, v: &Value) -> (k: NodeKind)
    ensures
        k == sampled_kind(*doc, v@),
{
    match v {
        Value::Node(id) => doc.node_kind(*id),
        Value::Null => NodeKind::Null,
        Value::Bool(_) => NodeKind::Bool,
        Value::Number(_) => NodeKind::Number,
        Value::Group { .. } => NodeKind::Number,
        Value::Str(_) => NodeKind::String,
        Value::NamedValue { .. } => NodeKind::Object,
        _ => NodeKind::Array,
    }
}

fn any_of_kind(doc: &Document, v: &Vec<Value>, k: NodeKind) -> (b: bool)
    ensures
        b == has_kind(*doc, seen(v@), k),
{
    let ghost all = seen(v@);
    let mut i: usize = 0;
    while i < v.len()
        invariant
            all == seen(v@),
            i <= v@.len(),
            forall|j: int| 0 <= j < i ==> sampled_kind(*doc, #[trigger] all[j]) != k,
        decreases v@.len() - i,
    {
        assert(all[i as int] == v@[i as int]@);
        if kind_in_sample(doc, &v[i]) == k {
            return true;
        }
        i += 1;
    }
    false
}

/// The kinds among the first `limit` values of a query, as bits.
pub fn collect_kinds<N: Numbers>(
    doc: &Document,
    num: &N,
    indexes: &IndexRegistry,
    ast: &Ast,
    limit: usize,
) -> (mask: u8)
    requires
        num.wf(),
        indexes.wf(),
        doc.records@.len() <= NULL_NODE,
    ensures
        mask == kind_bits(*doc, sample(*doc, nums(num), *indexes, ast@, limit as nat)),
{
    let v = take_sample(doc, num, indexes, ast, limit);
    let mut mask: u8 = 0;
    if any_of_kind(doc, &v, NodeKind::Null) {
        mask = mask + 1;
    }
    if any_of_kind(doc, &v, NodeKind::Bool) {
        mask = mask + 2;
    }
    if any_of_kind(doc, &v, NodeKind::Number) {
        mask = mask + 4;
    }
    if any_of_kind(doc, &v, NodeKind::String) {
        mask = mask + 8;
    }
    if any_of_kind(doc, &v, NodeKind::Array) {
        mask = mask + 16;
    }
    if any_of_kind(doc, &v, NodeKind::Object) {
        mask = mask + 32;
    }
    mask
}

pub open spec fn texts_of(v: Seq<String>) -> Seq<Seq<char>> {
    Seq::new(v.len(), |i: int| v[i]@)
}

/// In order, each once.
pub open spec fn ascending(v: Seq<Seq<char>>) -> bool {
    forall|i: int, j: int| 0 <= i < j < v.len() ==> before(#[trigger] v[i], #[trigger] v[j])
}

/// Adds a text to those in order, unless it is there.
fn add_text(v: Vec<String>, s: String) -> (out: Vec<String>)
    requires
        ascending(texts_of(v@)),
    ensures
        ascending(texts_of(out@)),
        forall|t: Seq<char>| #[trigger]
            texts_of(out@).contains(t) <==> texts_of(v@).contains(t) || t == s@,
{
    let ghost all = texts_of(v@);
    let ghost sv = s@;
    let mut kept = v;
    let mut p: usize = 0;
    while p < kept.len()
        invariant
            all == texts_of(kept@),
            all == texts_of(v@),
            sv == s@,
            ascending(all),
            p <= kept@.len(),
            forall|k: int| 0 <= k < p ==> before(#[trigger] all[k], sv),
        ensures
            all == texts_of(kept@),
            p <= kept@.len(),
            forall|k: int| 0 <= k < p ==> before(#[trigger] all[k], sv),
            p < kept@.len() ==> before(sv, all[p as int]),
        decreases kept@.len() - p,
    {
        assert(all[p as int] == kept@[p as int]@);
        proof {
            text_order(all[p as int], sv, sv);
            text_order(sv, all[p as int], sv);
        }
        match rank_texts(kept[p].as_str(), s.as_str()) {
            Rank::Equal => {
                assert(all[p as int] == sv);
                return kept;
            },
            Rank::Greater => {
                break;
            },
            Rank::Less => {},
        }
        p += 1;
    }
    kept.insert(p, s);
    proof {
        let now = texts_of(kept@);
        assert(now =~= all.insert(p as int, sv));
        assert forall|i: int, j: int| 0 <= i < j < now.len() implies before(
            #[trigger] now[i],
            #[trigger] now[j],
        ) by {
            if i < p && j == p {
                assert(now[i] == all[i]);
            } else if i == p {
                assert(now[j] == all[j - 1]);
                if j - 1 > p {
                    assert(before(all[p as int], all[j - 1]));
                    text_order(sv, all[p as int], all[j - 1]);
                }
            } else if i < p && j > p {
                assert(now[i] == all[i]);
                assert(now[j] == all[j - 1]);
            } else if i > p {
                assert(now[i] == all[i - 1]);
                assert(now[j] == all[j - 1]);
            } else {
                assert(now[i] == all[i]);
                assert(now[j] == all[j]);
            }
        }
        assert forall|t: Seq<char>| #[trigger] now.contains(t) <==> all.contains(t) || t == sv by {
            if all.contains(t) {
                let k = choose|k: int| 0 <= k < all.len() && all[k] == t;
                if k < p {
                    assert(now[k] == t);
                } else {
                    assert(now[k + 1] == t);
                }
            }
            if t == sv {
                assert(now[p as int] == t);
            }
            if now.contains(t) {
                let k = choose|k: int| 0 <= k < now.len() && now[k] == t;
                if k < p {
                    assert(all[k] == t);
                } else if k > p {
                    assert(all[k - 1] == t);
                }
            }
        }
    }
    kept
}

/// A key of one of these values.
pub open spec fn has_key(doc: Document, v: Seq<ValueV>, t: Seq<char>) -> bool {
    exists|i: int| 0 <= i < v.len() && #[trigger] key_in(doc, v[i], t)
}

pub open spec fn key_in(doc: Document, v: ValueV, t: Seq<char>) -> bool {
    v matches ValueV::Node(id) && object_keys(doc, id).contains(t)
}

/// The keys of the objects among the first `limit` values of a query, in
/// order.
#[verifier::spinoff_prover]
pub fn collect_keys<N: Numbers>(
    doc: &Document,
    num: &N,
    indexes: &IndexRegistry,
    ast: &Ast,
    limit: usize,
) -> (out: Vec<String>)
    requires
        num.wf(),
        indexes.wf(),
        doc.records@.len() <= NULL_NODE,
    ensures
        ascending(texts_of(out@)),
        forall|t: Seq<char>| #[trigger]
            texts_of(out@).contains(t) <==> has_key(
                *doc,
                sample(*doc, nums(num), *indexes, ast@, limit as nat),
                t,
            ),
{
    let v = take_sample(doc, num, indexes, ast, limit);
    let ghost all = seen(v@);
    let mut out: Vec<String> = Vec::new();
    let mut i: usize = 0;
    while i < v.len()
        invariant
            all == seen(v@),
            i <= v@.len(),
            ascending(texts_of(out@)),
            forall|t: Seq<char>| #[trigger]
                texts_of(out@).contains(t) <==> has_key(*doc, all.take(i as int), t),
        decreases v@.len() - i,
    {
        let ghost before_row = texts_of(out@);
        assert(all[i as int] == v@[i as int]@);
        if let Value::Node(id) = &v[i] {
            let keys = scan_object_keys(doc, *id);
            let ghost kv = object_keys(*doc, *id);
            let mut j: usize = 0;
            while j < keys.len()
                invariant
                    j <= keys@.len(),
                    kv == texts_of(keys@),
                    ascending(texts_of(out@)),
                    forall|t: Seq<char>| #[trigger]
                        texts_of(out@).contains(t) <==> before_row.contains(t) || kv.take(
                            j as int,
                        ).contains(t),
                decreases keys@.len() - j,
            {
                assert(kv[j as int] == keys@[j as int]@);
                let ghost prev = texts_of(out@);
                out = add_text(out, keys[j].clone());
                proof {
                    let here = kv.take(j as int);
                    let next = kv.take(j + 1);
                    assert(next =~= here.push(kv[j as int]));
                    assert forall|t: Seq<char>| #[trigger] texts_of(out@).contains(t)
                        <==> before_row.contains(t) || next.contains(t) by {
                        assert(texts_of(out@).contains(t) <==> prev.contains(t) || t
                            == kv[j as int]);
                        if next.contains(t) {
                            let k = choose|k: int| 0 <= k < next.len() && next[k] == t;
                            if k < j {
                                assert(here[k] == t);
                            }
                        }
                        if here.contains(t) {
                            let k = choose|k: int| 0 <= k < here.len() && here[k] == t;
                            assert(next[k] == t);
                        }
                        assert(next[j as int] == kv[j as int]);
                    }
                }
                j += 1;
            }
            proof {
                assert(kv.take(j as int) =~= kv);
                assert forall|t: Seq<char>| #[trigger] texts_of(out@).contains(t) <==> has_key(
                    *doc,
                    all.take(i + 1),
                    t,
                ) by {
                    one_more_key(*doc, all, i as int, t);
                }
            }
        } else {
            proof {
                assert forall|t: Seq<char>| #[trigger] texts_of(out@).contains(t) <==> has_key(
                    *doc,
                    all.take(i + 1),
                    t,
                ) by {
                    one_more_key(*doc, all, i as int, t);
                }
            }
        }
        i += 1;
    }
    assert(all.take(i as int) =~= all);
    out
}

proof fn one_more_key(doc: Document, v: Seq<ValueV>, i: int, t: Seq<char>)
    requires
        0 <= i < v.len(),
    ensures
        has_key(doc, v.take(i + 1), t) <==> has_key(doc, v.take(i), t) || key_in(doc, v[i], t),
{
    let a = v.take(i);
    let b = v.take(i + 1);
    if has_key(doc, a, t) {
        let k = choose|k: int| 0 <= k < a.len() && #[trigger] key_in(doc, a[k], t);
        assert(key_in(doc, b[k], t));
    }
    if key_in(doc, v[i], t) {
        assert(key_in(doc, b[i], t));
    }
    if has_key(doc, b, t) {
        let k = choose|k: int| 0 <= k < b.len() && #[trigger] key_in(doc, b[k], t);
        if k < i {
            assert(key_in(doc, a[k], t));
        }
    }
}

} // verus!
