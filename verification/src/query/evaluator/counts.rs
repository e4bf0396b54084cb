//! What a query costs: how many rows its sources emit, how many bytes those
//! rows span, and how many lookups find their index.
//!
//! A stage that streams asks its source for rows only until the stage behind
//! it has enough; sorts, groups and reductions ask for all of them.
use vstd::prelude::*;

use super::super::ast::{
    AggGroupKeyV, AggGroupV, AggOutputV, AggReductionV, AstV, ReducerOp, SortDir,
};
use super::super::index::IndexName;
use super::super::value::{truthy, ValueV};
use super::model::{
    any_true, first, grouped, has_true, ops_of, or_null, reducer_of, slots_of, top, CtxV, EnvV, KeyedV, RowV, StreamV,
};
use super::semantics::{
    agg_table, asked_for, keyed, less, pulled, rolled_up, run, stage_env, taken, with_slots,
};
use super::spans::{span_sum, step_spans};
use crate::document::Document;

verus! {

/// Rows, bytes and lookups.
pub struct Cost {
    pub rows: nat,
    pub bytes: nat,
    pub lookups: nat,
}

pub open spec fn nothing() -> Cost {
    Cost { rows: 0, bytes: 0, lookups: 0 }
}

pub open spec fn plus(a: Cost, b: Cost) -> Cost {
    Cost { rows: a.rows + b.rows, bytes: a.bytes + b.bytes, lookups: a.lookups + b.lookups }
}

/// The bytes that a row spans: those of its node.
pub open spec fn row_bytes(doc: Document, v: ValueV) -> nat {
    match v {
        ValueV::Node(id) => match doc.rec(id) {
            Some(r) => r.length as nat,
            None => 0,
        },
        _ => 0,
    }
}

/// The bytes that the first `n` rows span.
pub open spec fn rows_bytes(doc: Document, rows: Seq<RowV>, n: nat) -> nat
    decreases n,
{
    if n == 0 {
        0
    } else {
        rows_bytes(doc, rows, (n - 1) as nat) + row_bytes(doc, rows[n - 1].value)
    }
}

/// The bytes of the primitives without a record among the values that a step
/// emits from a row, when `k` of them are taken.
pub open spec fn step_bytes(c: CtxV, r: AstV, row: RowV, k: Option<nat>) -> nat {
    let spans = step_spans(c, r, row.value);
    span_sum(
        spans,
        match k {
            None => spans.len(),
            Some(_) => taken(
                Some(taken(k, run(c, r, row.env, row.value).rows.len())),
                spans.len(),
            ),
        },
    )
}

/// Those of a step on each row from `i` on, `k` in all.
pub open spec fn steps_bytes(c: CtxV, r: AstV, rows: Seq<RowV>, i: nat, k: Option<nat>) -> nat
    decreases rows.len() - i,
{
    if i >= rows.len() || k == Some(0nat) {
        0
    } else {
        let row = rows[i as int];
        step_bytes(c, r, row, k) + steps_bytes(
            c,
            r,
            rows,
            i + 1,
            less(k, run(c, r, row.env, row.value).rows.len()),
        )
    }
}

/// The bytes of the primitives without a record that a source emits.
pub open spec fn primitive_bytes(c: CtxV, e: AstV, env: EnvV, v: ValueV, k: Option<nat>) -> nat {
    match e {
        AstV::Pipe(l, r) => steps_bytes(c, *r, run(c, *l, env, v).rows, 0, k),
        _ => step_bytes(c, e, RowV { env, value: v }, k),
    }
}

/// The cost of a source whose rows are taken.
pub open spec fn emitted(doc: Document, rows: Seq<RowV>, k: Option<nat>) -> Cost {
    Cost {
        rows: taken(k, rows.len()),
        bytes: rows_bytes(doc, rows, taken(k, rows.len())),
        lookups: 0,
    }
}

/// A test takes the rows from `i` on up to the first that is truthy.
pub open spec fn until_true(doc: Document, rows: Seq<RowV>, i: nat) -> Option<nat>
    decreases rows.len() - i,
{
    if i >= rows.len() {
        None
    } else if truthy(doc, rows[i as int].value) {
        Some(i + 1)
    } else {
        until_true(doc, rows, i + 1)
    }
}

/// A row has the key that its group is found by.
pub open spec fn has_key(c: CtxV, key: AstV, row: RowV) -> bool {
    match first(run(c, key, row.env, row.value)) {
        Ok(o) => keyed(c, o) is Some,
        Err(_) => false,
    }
}

/// The finished reductions of each group.
pub open spec fn slot_sets(
    c: CtxV,
    g: Option<AggGroupV>,
    ops: Seq<ReducerOp>,
    t: Seq<KeyedV>,
) -> Seq<Seq<Option<u64>>> {
    let b = match g {
        None => grouped(c, ops, t, 0),
        Some(AggGroupV::Single { .. }) => grouped(c, ops, t, 1),
        Some(AggGroupV::Rollup(keys)) => rolled_up(c, ops, t, keys.len()),
    };
    Seq::new(b.len(), |i: int| slots_of(c, ops, b[i]))
}

/// A tree that is known to have neither a source nor a lookup in it.
#[verifier::opaque]
pub open spec fn quiet(a: AstV) -> bool
    decreases a,
{
    match a {
        AstV::Identity => true,
        AstV::Field(_) => true,
        AstV::Index(_) => true,
        AstV::Iterate => true,
        AstV::IterateField(_) => true,
        AstV::Descend => true,
        AstV::DescendField(_) => true,
        AstV::LitNumber(_) => true,
        AstV::LitString(_) => true,
        AstV::LitBool(_) => true,
        AstV::LitNull => true,
        AstV::Var(_) => true,
        AstV::ReducerSlot(_) => true,
        AstV::Not => true,
        AstV::Sum => true,
        AstV::Min => true,
        AstV::Max => true,
        AstV::Avg => true,
        AstV::Count => true,
        AstV::Limit(_) => true,
        AstV::Distinct => true,
        AstV::Pipe(l, r) => quiet(*l) && quiet(*r),
        AstV::Compare(l, _, r) => quiet(*l) && quiet(*r),
        AstV::And(l, r) => quiet(*l) && quiet(*r),
        AstV::Or(l, r) => quiet(*l) && quiet(*r),
        AstV::Binary { lhs, rhs, .. } => quiet(*lhs) && quiet(*rhs),
        AstV::Select(e) => quiet(*e),
        AstV::Exists(e) => quiet(*e),
        AstV::Neg(e) => quiet(*e),
        AstV::Let { value, .. } => quiet(*value),
        AstV::UnnestEach { source, .. } => quiet(*source),
        AstV::TypeTest { value, .. } => quiet(*value),
        AstV::FieldSetEquals { base, target, .. } => quiet(*base) && quiet(*target),
        _ => false,
    }
}

/// The cost of the first value of each expression.
#[verifier::opaque]
pub open spec fn firsts_cost(c: CtxV, es: Seq<AstV>, env: EnvV, v: ValueV) -> Cost
    decreases es, 0nat,
{
    if es.len() == 0 {
        nothing()
    } else {
        plus(
            firsts_cost(c, es.drop_last(), env, v),
            cost(c, es.last(), env, v, Some(1)),
        )
    }
}

#[verifier::opaque]
pub open spec fn named_cost(c: CtxV, es: Seq<(Seq<char>, AstV)>, env: EnvV, v: ValueV) -> Cost
    decreases es, 0nat,
{
    if es.len() == 0 {
        nothing()
    } else {
        plus(
            named_cost(c, es.drop_last(), env, v),
            cost(c, es.last().1, env, v, Some(1)),
        )
    }
}

/// The cost of the sort keys of a row.
#[verifier::opaque]
pub open spec fn sort_cost(c: CtxV, es: Seq<(AstV, SortDir)>, env: EnvV, v: ValueV) -> Cost
    decreases es, 0nat,
{
    if es.len() == 0 {
        nothing()
    } else {
        plus(
            sort_cost(c, es.drop_last(), env, v),
            cost(c, es.last().0, env, v, Some(1)),
        )
    }
}

/// The cost of the sort keys of each row.
#[verifier::opaque]
pub open spec fn sorted_cost(c: CtxV, keys: Seq<(AstV, SortDir)>, rows: Seq<RowV>) -> Cost
    decreases keys, rows.len() + 1,
{
    if rows.len() == 0 {
        nothing()
    } else {
        plus(
            sorted_cost(c, keys, rows.drop_last()),
            sort_cost(c, keys, rows.last().env, rows.last().value),
        )
    }
}

/// The cost of a stage on each row from `i` on, until it has given `k` rows.
#[verifier::opaque]
pub open spec fn each_cost(c: CtxV, r: AstV, rows: Seq<RowV>, i: nat, k: Option<nat>) -> Cost
    decreases r, rows.len() - i + 1,
{
    if i >= rows.len() || k == Some(0nat) {
        nothing()
    } else {
        let row = rows[i as int];
        let t = run(c, r, row.env, row.value);
        plus(
            cost(c, r, row.env, row.value, k),
            if t.err is Some {
                nothing()
            } else {
                each_cost(c, r, rows, i + 1, less(k, t.rows.len()))
            },
        )
    }
}

/// The cost of a row of a `by` stage. Without a key its expression is not
/// run.
#[verifier::opaque]
pub open spec fn by_cost(c: CtxV, r: AstV, row: RowV) -> Cost
    decreases r, 1nat,
{
    match r {
        AstV::By(e, k) => plus(
            cost(c, *k, row.env, row.value, Some(1)),
            if !has_key(c, *k, row) || reducer_of(*e) is Some {
                nothing()
            } else {
                match *e {
                    AstV::Pipe(l, last) => if reducer_of(*last) is Some {
                        cost(c, *l, row.env, row.value, None)
                    } else {
                        cost(c, *e, row.env, row.value, None)
                    },
                    _ => cost(c, *e, row.env, row.value, None),
                }
            },
        ),
        _ => nothing(),
    }
}

#[verifier::opaque]
pub open spec fn by_rows_cost(c: CtxV, r: AstV, rows: Seq<RowV>) -> Cost
    decreases r, rows.len() + 2,
{
    if rows.len() == 0 {
        nothing()
    } else {
        plus(by_rows_cost(c, r, rows.drop_last()), by_cost(c, r, rows.last()))
    }
}

/// The cost of what a reduction sees of a row.
#[verifier::opaque]
pub open spec fn seen_cost(c: CtxV, r: AggReductionV, row: RowV) -> Cost
    decreases r, 0nat,
{
    plus(
        match r.where_pred {
            None => nothing(),
            Some(p) => cost(c, *p, row.env, row.value, None),
        },
        if r.where_pred matches Some(p) && !has_true(
            c.doc,
            run(c, *p, row.env, row.value).rows,
        ) {
            nothing()
        } else {
            match r.value {
                None => nothing(),
                Some(x) => cost(c, *x, row.env, row.value, None),
            }
        },
    )
}

#[verifier::opaque]
pub open spec fn all_seen_cost(c: CtxV, r: Seq<AggReductionV>, row: RowV) -> Cost
    decreases r, 0nat,
{
    if r.len() == 0 {
        nothing()
    } else {
        plus(all_seen_cost(c, r.drop_last(), row), seen_cost(c, r.last(), row))
    }
}

#[verifier::opaque]
pub open spec fn roll_cost(c: CtxV, k: Seq<AggGroupKeyV>, row: RowV) -> Cost
    decreases k, 0nat,
{
    if k.len() == 0 {
        nothing()
    } else {
        plus(
            roll_cost(c, k.drop_last(), row),
            cost(c, *k.last().key, row.env, row.value, Some(1)),
        )
    }
}

/// The cost of the keys of a row in an aggregate block.
#[verifier::opaque]
pub open spec fn group_cost(c: CtxV, g: Option<AggGroupV>, row: RowV) -> Cost
    decreases g, 0nat,
{
    match g {
        None => nothing(),
        Some(AggGroupV::Single { key, .. }) => cost(c, *key, row.env, row.value, Some(1)),
        Some(AggGroupV::Rollup(keys)) => roll_cost(c, keys, row),
    }
}

/// The row takes part in an aggregate block.
pub open spec fn takes_part(c: CtxV, g: Option<AggGroupV>, row: RowV) -> bool {
    match g {
        Some(AggGroupV::Single { key, .. }) => has_key(c, *key, row),
        _ => true,
    }
}

/// The cost of a row of an aggregate block.
#[verifier::opaque]
pub open spec fn agg_cost(c: CtxV, a: AstV, row: RowV) -> Cost
    decreases a, 1nat,
{
    match a {
        AstV::AggregateBlock { group, reductions, .. } => plus(
            group_cost(c, group, row),
            if takes_part(c, group, row) {
                all_seen_cost(c, reductions, row)
            } else {
                nothing()
            },
        ),
        _ => nothing(),
    }
}

#[verifier::opaque]
pub open spec fn agg_rows_cost(c: CtxV, a: AstV, rows: Seq<RowV>) -> Cost
    decreases a, rows.len() + 2,
{
    if rows.len() == 0 {
        nothing()
    } else {
        plus(agg_rows_cost(c, a, rows.drop_last()), agg_cost(c, a, rows.last()))
    }
}

/// The cost of an output of an aggregate block.
#[verifier::opaque]
pub open spec fn output_cost(c: CtxV, o: AggOutputV, env: EnvV) -> Cost
    decreases o, 0nat,
{
    match o {
        AggOutputV::Leaf { expr, default } => plus(
            cost(c, *expr, env, ValueV::Null, Some(1)),
            match first(run(c, *expr, env, ValueV::Null)) {
                Err(_) => nothing(),
                Ok(x) => if !(or_null(x) is Null) {
                    nothing()
                } else {
                    match default {
                        None => nothing(),
                        Some(d) => cost(c, *d, env, ValueV::Null, Some(1)),
                    }
                },
            },
        ),
        AggOutputV::Object(fields) => outputs_cost(c, fields, env),
    }
}

#[verifier::opaque]
pub open spec fn outputs_cost(c: CtxV, o: Seq<(Seq<char>, AggOutputV)>, env: EnvV) -> Cost
    decreases o, 0nat,
{
    if o.len() == 0 {
        nothing()
    } else {
        plus(outputs_cost(c, o.drop_last(), env), output_cost(c, o.last().1, env))
    }
}

/// The cost of the outputs of each group.
#[verifier::opaque]
pub open spec fn groups_cost(
    c: CtxV,
    o: Seq<(Seq<char>, AggOutputV)>,
    sets: Seq<Seq<Option<u64>>>,
    env: EnvV,
) -> Cost
    decreases o, sets.len() + 1,
{
    if sets.len() == 0 {
        nothing()
    } else {
        plus(
            groups_cost(c, o, sets.drop_last(), env),
            outputs_cost(c, o, with_slots(env, sets.last())),
        )
    }
}

/// The cost of the rows of an aggregate block. Without groups all outputs are
/// written.
#[verifier::opaque]
pub open spec fn block_cost(c: CtxV, a: AstV, env: EnvV, s: StreamV, k: Option<nat>) -> Cost
    decreases a, s.rows.len() + 3,
{
    match a {
        AstV::AggregateBlock { group, reductions, outputs } => plus(
            agg_rows_cost(c, a, s.rows),
            match agg_table(c, a, s.rows) {
                Err(_) => nothing(),
                Ok(t) => if s.err is Some {
                    nothing()
                } else {
                    let sets = slot_sets(c, group, ops_of(reductions), t);
                    groups_cost(
                        c,
                        outputs,
                        sets.take(
                            taken(
                                if group is None {
                                    None
                                } else {
                                    k
                                },
                                sets.len(),
                            ) as int,
                        ),
                        env,
                    )
                },
            },
        ),
        _ => nothing(),
    }
}

/// The cost of a stage on a stream, without that of the stream. A sort that
/// keeps no rows asks for no keys.
#[verifier::opaque]
pub open spec fn stage_cost(c: CtxV, r: AstV, env: EnvV, s: StreamV, k: Option<nat>) -> Cost
    decreases r, s.rows.len() + 4,
{
    if quiet(r) {
        nothing()
    } else {
        match r {
            AstV::By(_, _) => by_rows_cost(c, r, s.rows),
            AstV::SortBy(keys) => if top(c, None) == Some(0nat) {
                nothing()
            } else {
                sorted_cost(c, keys, s.rows)
            },
            AstV::AggregateBlock { .. } => block_cost(c, r, env, s, k),
            _ => each_cost(c, r, s.rows, 0, k),
        }
    }
}

/// The cost of a tree on a value, when `k` of its rows are taken, or all.
#[verifier::opaque]
pub open spec fn cost(c: CtxV, a: AstV, env: EnvV, v: ValueV, k: Option<nat>) -> Cost
    decreases a, 0nat,
{
    if quiet(a) {
        nothing()
    } else {
        match a {
            AstV::Pipe(l, r) => match (*l, *r) {
                (AstV::Pipe(source, mid), AstV::Limit(n)) => match *mid {
                    AstV::SortBy(keys) => plus(
                        cost(c, *source, env, v, None),
                        if top(c, Some(n as nat)) == Some(0nat) {
                            nothing()
                        } else {
                            sorted_cost(c, keys, run(c, *source, env, v).rows)
                        },
                    ),
                    _ => plus(
                        cost(
                            c,
                            *l,
                            env,
                            v,
                            asked_for(c, *r, run(c, *l, env, v).rows, k),
                        ),
                        stage_cost(
                            c,
                            *r,
                            stage_env(c, *l, *r, env, v),
                            run(c, *l, env, v),
                            k,
                        ),
                    ),
                },
                _ => plus(
                    cost(c, *l, env, v, asked_for(c, *r, run(c, *l, env, v).rows, k)),
                    stage_cost(
                        c,
                        *r,
                        stage_env(c, *l, *r, env, v),
                        run(c, *l, env, v),
                        k,
                    ),
                ),
            },
            AstV::Tap(e) => plus(
                plus(
                    cost(c, *e, env, v, k),
                    emitted(c.doc, run(c, *e, env, v).rows, k),
                ),
                Cost { rows: 0, bytes: primitive_bytes(c, *e, env, v, k), lookups: 0 },
            ),
            AstV::Lookup { source_canon, key_canon, .. } => if c.indexes.has(
                IndexName { source: source_canon, key: key_canon },
            ) {
                Cost { rows: 0, bytes: 0, lookups: 1 }
            } else {
                nothing()
            },
            AstV::JoinEach { outer_key, lookup, .. } => {
                let keys = run(c, *outer_key, env, v);
                plus(
                    cost(c, *outer_key, env, v, pulled(c, *lookup, keys.rows, 0, k)),
                    each_cost(c, *lookup, keys.rows, 0, k),
                )
            },
            AstV::Subquery { pipeline } => cost(c, *pipeline, env, ValueV::Node(c.root), k),
            AstV::UnnestEach { source, .. } => cost(c, *source, env, v, Some(1)),
            AstV::Compare(l, _, r) => plus(
                cost(c, *l, env, v, None),
                cost(c, *r, env, v, None),
            ),
            AstV::And(l, r) => plus(
                cost(c, *l, env, v, until_true(c.doc, run(c, *l, env, v).rows, 0)),
                if any_true(c.doc, run(c, *l, env, v)) == Ok::<bool, super::model::Missing>(true) {
                    cost(c, *r, env, v, until_true(c.doc, run(c, *r, env, v).rows, 0))
                } else {
                    nothing()
                },
            ),
            AstV::Or(l, r) => plus(
                cost(c, *l, env, v, until_true(c.doc, run(c, *l, env, v).rows, 0)),
                if any_true(c.doc, run(c, *l, env, v)) == Ok::<bool, super::model::Missing>(
                    false,
                ) {
                    cost(c, *r, env, v, until_true(c.doc, run(c, *r, env, v).rows, 0))
                } else {
                    nothing()
                },
            ),
            AstV::Select(p) => cost(
                c,
                *p,
                env,
                v,
                until_true(c.doc, run(c, *p, env, v).rows, 0),
            ),
            AstV::If { cond, then_branch, else_branch } => plus(
                cost(c, *cond, env, v, until_true(c.doc, run(c, *cond, env, v).rows, 0)),
                match any_true(c.doc, run(c, *cond, env, v)) {
                    Err(_) => nothing(),
                    Ok(true) => cost(c, *then_branch, env, v, k),
                    Ok(false) => cost(c, *else_branch, env, v, k),
                },
            ),
            AstV::KeyTuple(parts) => firsts_cost(c, parts, env, v),
            AstV::ArrayLit(items) => firsts_cost(c, items, env, v),
            AstV::Call { args, .. } => firsts_cost(c, args, env, v),
            AstV::Project(fields) => named_cost(c, fields, env, v),
            AstV::Object(fields) => named_cost(c, fields, env, v),
            AstV::Exists(e) => cost(c, *e, env, v, Some(1)),
            AstV::Let { value, .. } => cost(c, *value, env, v, Some(1)),
            AstV::Neg(e) => cost(c, *e, env, v, Some(1)),
            AstV::TypeTest { value, .. } => cost(c, *value, env, v, k),
            AstV::Round { value, precision } => plus(
                cost(c, *value, env, v, Some(1)),
                match precision {
                    None => nothing(),
                    Some(p) => cost(c, *p, env, v, Some(1)),
                },
            ),
            AstV::Binary { lhs, rhs, .. } => plus(
                cost(c, *lhs, env, v, Some(1)),
                cost(c, *rhs, env, v, Some(1)),
            ),
            AstV::FieldSetEquals { base, target, .. } => plus(
                cost(c, *target, env, v, Some(1)),
                match first(run(c, *target, env, v)) {
                    Ok(Some(_)) => cost(c, *base, env, v, Some(1)),
                    _ => nothing(),
                },
            ),
            _ => nothing(),
        }
    }
}

} // verus!
