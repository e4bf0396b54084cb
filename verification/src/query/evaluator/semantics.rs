//! What each stage of a query tree gives on a row.
use vstd::prelude::*;

use super::super::ast::{
    AggGroupKeyV, AggGroupV, AggOutputV, AggReductionV, AstV, CompareOp, ReducerOp, SortDir,
};
use super::super::index::ScalarKeyV;
use super::super::number::NumOp;
use super::super::value::{scalar, truthy, type_of, ScalarV, ValueV};
use super::compare::compared;
use super::functions::called;
use super::model::{
    all_of, any_true, below_of, binary_num, bound_rows, broken, computed, consumed_all,
    distinct_rows, element_of, elements_of, field_of, fields_below, fields_equal, finished, first,
    flag, fresh_state, group_lists, group_sums, grouped, has_true, joined_key, key_columns, key_of,
    kids_of, limited, lookup_rows, named_output, names_of, no_rows, node_ids, non_null,
    number_opt, object_of, one, ops_of, opt_number, opt_row, or_null, reducer_of, scalars_of,
    slots_of, sorted_order, top, values_of, BucketV, CtxV, EnvV, KeyedV, Missing, RowV, StreamV,
};
use super::scan::members_of;
use crate::document::NodeKind;
use crate::sidecar::utf8_of;

verus! {

/// Each of the left values compared with each of the right ones.
pub open spec fn comparisons(c: CtxV, l: Seq<ValueV>, op: CompareOp, r: Seq<ValueV>) -> Seq<ValueV>
    decreases l.len(),
{
    if l.len() == 0 {
        Seq::empty()
    } else {
        comparisons(c, l.drop_last(), op, r) + compared_with(c, l.last(), op, r)
    }
}

pub open spec fn compared_with(c: CtxV, l: ValueV, op: CompareOp, r: Seq<ValueV>) -> Seq<ValueV> {
    Seq::new(
        r.len(),
        |i: int| ValueV::Bool(compared(scalar(c.doc, c.n, l), op, scalar(c.doc, c.n, r[i]))),
    )
}

/// A type test of each value of a stream.
pub open spec fn type_tests(
    c: CtxV,
    env: EnvV,
    s: StreamV,
    kind: super::super::ast::JsonTypeKind,
    negated: bool,
) -> StreamV {
    StreamV {
        rows: Seq::new(
            s.rows.len(),
            |i: int|
                RowV {
                    env,
                    value: ValueV::Bool((type_of(c.doc, s.rows[i].value) == kind) != negated),
                },
        ),
        err: s.err,
    }
}

pub open spec fn literal(c: CtxV, text: Seq<char>) -> ValueV {
    match (c.n.read)(utf8_of(text)) {
        Some(x) => ValueV::Number(x),
        None => ValueV::Null,
    }
}

/// The members called `name` of the children of a value.
pub open spec fn kid_fields(c: CtxV, name: Seq<char>, v: ValueV) -> Seq<ValueV> {
    members_of(c.doc, c.n, utf8_of(name), kids_of(c, v))
}

/// A reduction of a whole stream.
pub open spec fn reduced(c: CtxV, op: ReducerOp, env: EnvV, s: StreamV) -> StreamV {
    match s.err {
        Some(e) => broken(e),
        None => one(
            env,
            opt_number(finished(c, op, consumed_all(c, op, fresh_state(), values_of(s.rows)))),
        ),
    }
}

pub open spec fn dirs_of(keys: Seq<(AstV, SortDir)>) -> Seq<SortDir> {
    Seq::new(keys.len(), |i: int| keys[i].1)
}

/// Rows in the order of their keys, as many as are wanted.
pub open spec fn in_order(
    c: CtxV,
    keys: Seq<Seq<ScalarV>>,
    dirs: Seq<SortDir>,
    limit: Option<nat>,
    env: EnvV,
    rows: Seq<RowV>,
) -> StreamV {
    let order = sorted_order(keys, dirs, rows.len());
    let wanted = match top(c, limit) {
        Some(k) => if k < order.len() {
            order.take(k as int)
        } else {
            order
        },
        None => order,
    };
    all_of(
        env,
        Seq::new(wanted.len(), |i: int| rows[wanted[i]].value),
    )
}

/// The joined rows of one row; without a match an outer join keeps the row.
pub open spec fn joined(alias: Seq<char>, inner: bool, env: EnvV, v: ValueV, s: StreamV) -> StreamV {
    if s.rows.len() == 0 && s.err is None && !inner {
        one(env.bind(alias, ValueV::Null), v)
    } else {
        StreamV { rows: bound_rows(env, alias, values_of(s.rows), v), err: s.err }
    }
}

/// The groups of each prefix of `p` keys, the longest first.
pub open spec fn rolled_up(c: CtxV, ops: Seq<ReducerOp>, rows: Seq<KeyedV>, p: nat) -> Seq<BucketV>
    decreases p,
{
    if p == 0 {
        grouped(c, ops, rows, 0)
    } else {
        grouped(c, ops, rows, p) + rolled_up(c, ops, rows, (p - 1) as nat)
    }
}

pub open spec fn roll_names(keys: Seq<AggGroupKeyV>) -> Seq<Seq<char>> {
    Seq::new(keys.len(), |i: int| keys[i].name)
}

/// The key of a row under its value.
pub open spec fn keyed(c: CtxV, o: Option<ValueV>) -> Option<(ScalarKeyV, ValueV)> {
    match o {
        Some(v) => match key_of(c.doc, c.n, v) {
            Some(k) => Some((k, v)),
            None => None,
        },
        None => None,
    }
}

/// The first value of each expression.
#[verifier::opaque]
pub open spec fn firsts(c: CtxV, es: Seq<AstV>, env: EnvV, v: ValueV) -> Result<
    Seq<Option<ValueV>>,
    Missing,
>
    decreases es, 0nat,
{
    if es.len() == 0 {
        Ok(Seq::empty())
    } else {
        match firsts(c, es.drop_last(), env, v) {
            Err(e) => Err(e),
            Ok(rest) => match first(run(c, es.last(), env, v)) {
                Err(e) => Err(e),
                Ok(o) => Ok(rest.push(o)),
            },
        }
    }
}

/// The first value of each named expression.
#[verifier::opaque]
pub open spec fn named_firsts(c: CtxV, es: Seq<(Seq<char>, AstV)>, env: EnvV, v: ValueV) -> Result<
    Seq<Option<ValueV>>,
    Missing,
>
    decreases es, 0nat,
{
    if es.len() == 0 {
        Ok(Seq::empty())
    } else {
        match named_firsts(c, es.drop_last(), env, v) {
            Err(e) => Err(e),
            Ok(rest) => match first(run(c, es.last().1, env, v)) {
                Err(e) => Err(e),
                Ok(o) => Ok(rest.push(o)),
            },
        }
    }
}

/// The sort keys of a row.
#[verifier::opaque]
pub open spec fn sort_firsts(c: CtxV, es: Seq<(AstV, SortDir)>, env: EnvV, v: ValueV) -> Result<
    Seq<Option<ValueV>>,
    Missing,
>
    decreases es, 0nat,
{
    if es.len() == 0 {
        Ok(Seq::empty())
    } else {
        match sort_firsts(c, es.drop_last(), env, v) {
            Err(e) => Err(e),
            Ok(rest) => match first(run(c, es.last().0, env, v)) {
                Err(e) => Err(e),
                Ok(o) => Ok(rest.push(o)),
            },
        }
    }
}

/// The sort keys of each row.
#[verifier::opaque]
pub open spec fn sort_table(c: CtxV, keys: Seq<(AstV, SortDir)>, rows: Seq<RowV>) -> Result<
    Seq<Seq<ScalarV>>,
    Missing,
>
    decreases keys, rows.len() + 1,
{
    if rows.len() == 0 {
        Ok(Seq::empty())
    } else {
        match sort_table(c, keys, rows.drop_last()) {
            Err(e) => Err(e),
            Ok(rest) => match sort_firsts(c, keys, rows.last().env, rows.last().value) {
                Err(e) => Err(e),
                Ok(k) => Ok(rest.push(scalars_of(c, k))),
            },
        }
    }
}

/// A stream, sorted.
#[verifier::opaque]
pub open spec fn sorted(
    c: CtxV,
    keys: Seq<(AstV, SortDir)>,
    limit: Option<nat>,
    env: EnvV,
    s: StreamV,
) -> StreamV
    decreases keys, s.rows.len() + 2,
{
    if top(c, limit) == Some(0nat) {
        StreamV { rows: Seq::empty(), err: s.err }
    } else {
        match sort_table(c, keys, s.rows) {
            Err(e) => broken(e),
            Ok(t) => match s.err {
                Some(e) => broken(e),
                None => in_order(c, t, dirs_of(keys), limit, env, s.rows),
            },
        }
    }
}

/// A stage run on each row of a stream.
#[verifier::opaque]
pub open spec fn each(c: CtxV, r: AstV, rows: Seq<RowV>) -> StreamV
    decreases r, rows.len() + 1,
{
    if rows.len() == 0 {
        no_rows()
    } else {
        let s = each(c, r, rows.drop_last());
        match s.err {
            Some(e) => s,
            None => {
                let t = run(c, r, rows.last().env, rows.last().value);
                StreamV { rows: s.rows + t.rows, err: t.err }
            },
        }
    }
}

/// The rows of a stage, and then the error of the stream it ran on.
pub open spec fn followed(s: StreamV, err: Option<Missing>) -> StreamV {
    match s.err {
        Some(e) => s,
        None => StreamV { rows: s.rows, err },
    }
}

/// The part of a `by` stage that is evaluated on each row, and its reducer.
pub open spec fn by_parts(e: AstV) -> (Option<ReducerOp>, Option<AstV>) {
    match reducer_of(e) {
        Some(op) => (Some(op), None),
        None => match e {
            AstV::Pipe(l, r) => match reducer_of(*r) {
                Some(op) => (Some(op), Some(*l)),
                None => (None, Some(e)),
            },
            _ => (None, Some(e)),
        },
    }
}

/// What a `by` stage makes of a row.
pub open spec fn by_keyed(
    op: Option<ReducerOp>,
    key: (ScalarKeyV, ValueV),
    v: Seq<ValueV>,
) -> KeyedV {
    match op {
        Some(_) => KeyedV { keys: seq![Some(key)], inputs: seq![v], nodes: Seq::empty() },
        None => KeyedV { keys: seq![Some(key)], inputs: Seq::empty(), nodes: node_ids(v) },
    }
}

pub open spec fn no_key() -> KeyedV {
    KeyedV { keys: seq![None], inputs: Seq::empty(), nodes: Seq::empty() }
}

/// A row of a `by` stage with its key. Without a key its expression is not
/// run.
#[verifier::opaque]
pub open spec fn by_row(c: CtxV, r: AstV, row: RowV) -> Result<KeyedV, Missing>
    decreases r, 1nat,
{
    match r {
        AstV::By(e, k) => match first(run(c, *k, row.env, row.value)) {
            Err(x) => Err(x),
            Ok(o) => match keyed(c, o) {
                None => Ok(no_key()),
                Some(key) => match by_parts(*e).1 {
                    None => Ok(by_keyed(by_parts(*e).0, key, seq![row.value])),
                    Some(_) => {
                        let s = match *e {
                            AstV::Pipe(l, last) => if reducer_of(*last) is Some {
                                run(c, *l, row.env, row.value)
                            } else {
                                run(c, *e, row.env, row.value)
                            },
                            _ => run(c, *e, row.env, row.value),
                        };
                        match s.err {
                            Some(x) => Err(x),
                            None => Ok(by_keyed(by_parts(*e).0, key, values_of(s.rows))),
                        }
                    },
                },
            },
        },
        _ => Ok(no_key()),
    }
}

#[verifier::opaque]
pub open spec fn by_table(c: CtxV, r: AstV, rows: Seq<RowV>) -> Result<Seq<KeyedV>, Missing>
    decreases r, rows.len() + 2,
{
    if rows.len() == 0 {
        Ok(Seq::empty())
    } else {
        match by_table(c, r, rows.drop_last()) {
            Err(e) => Err(e),
            Ok(rest) => match by_row(c, r, rows.last()) {
                Err(e) => Err(e),
                Ok(k) => Ok(rest.push(k)),
            },
        }
    }
}

/// The groups of a `by` stage.
pub open spec fn by_groups(c: CtxV, op: Option<ReducerOp>, t: Seq<KeyedV>) -> Seq<ValueV> {
    match op {
        Some(op) => group_sums(c, op, grouped(c, seq![op], t, 1)),
        None => group_lists(c, grouped(c, Seq::empty(), t, 1)),
    }
}

/// What a reduction sees of a row.
#[verifier::opaque]
pub open spec fn seen_by(c: CtxV, r: AggReductionV, row: RowV) -> Result<Seq<ValueV>, Missing>
    decreases r, 0nat,
{
    let kept: Result<bool, Missing> = match r.where_pred {
        None => Ok(true),
        Some(p) => {
            let s = run(c, *p, row.env, row.value);
            match s.err {
                Some(e) => Err(e),
                None => Ok(has_true(c.doc, s.rows)),
            }
        },
    };
    match kept {
        Err(e) => Err(e),
        Ok(false) => Ok(Seq::empty()),
        Ok(true) => match r.value {
            None => Ok(seq![row.value]),
            Some(x) => {
                let s = run(c, *x, row.env, row.value);
                match s.err {
                    Some(e) => Err(e),
                    None => Ok(
                        if r.op == ReducerOp::Count {
                            non_null(values_of(s.rows))
                        } else {
                            values_of(s.rows)
                        },
                    ),
                }
            },
        },
    }
}

#[verifier::opaque]
pub open spec fn seen_by_all(c: CtxV, r: Seq<AggReductionV>, row: RowV) -> Result<
    Seq<Seq<ValueV>>,
    Missing,
>
    decreases r, 0nat,
{
    if r.len() == 0 {
        Ok(Seq::empty())
    } else {
        match seen_by_all(c, r.drop_last(), row) {
            Err(e) => Err(e),
            Ok(rest) => match seen_by(c, r.last(), row) {
                Err(e) => Err(e),
                Ok(v) => Ok(rest.push(v)),
            },
        }
    }
}

/// The keys of a row in a rollup.
#[verifier::opaque]
pub open spec fn roll_keys(c: CtxV, k: Seq<AggGroupKeyV>, row: RowV) -> Result<
    Seq<Option<(ScalarKeyV, ValueV)>>,
    Missing,
>
    decreases k, 0nat,
{
    if k.len() == 0 {
        Ok(Seq::empty())
    } else {
        match roll_keys(c, k.drop_last(), row) {
            Err(e) => Err(e),
            Ok(rest) => match first(run(c, *k.last().key, row.env, row.value)) {
                Err(e) => Err(e),
                Ok(o) => Ok(rest.push(keyed(c, o))),
            },
        }
    }
}

/// The keys of a row in an aggregate block.
#[verifier::opaque]
pub open spec fn group_keys(c: CtxV, g: AggGroupV, row: RowV) -> Result<
    Seq<Option<(ScalarKeyV, ValueV)>>,
    Missing,
>
    decreases g, 0nat,
{
    match g {
        AggGroupV::Single { name, key } => match first(run(c, *key, row.env, row.value)) {
            Err(e) => Err(e),
            Ok(o) => Ok(seq![keyed(c, o)]),
        },
        AggGroupV::Rollup(keys) => roll_keys(c, keys, row),
    }
}

/// A row of an aggregate block. A row without its one key takes no part.
#[verifier::opaque]
pub open spec fn agg_row(c: CtxV, a: AstV, row: RowV) -> Result<KeyedV, Missing>
    decreases a, 1nat,
{
    match a {
        AstV::AggregateBlock { group, reductions, .. } => {
            let keys: Result<Seq<Option<(ScalarKeyV, ValueV)>>, Missing> = match group {
                None => Ok(Seq::empty()),
                Some(g) => group_keys(c, g, row),
            };
            match keys {
                Err(e) => Err(e),
                Ok(k) => if group matches Some(AggGroupV::Single { .. }) && k[0] is None {
                    Ok(no_key())
                } else {
                    match seen_by_all(c, reductions, row) {
                        Err(e) => Err(e),
                        Ok(v) => Ok(KeyedV { keys: k, inputs: v, nodes: Seq::empty() }),
                    }
                },
            }
        },
        _ => Ok(no_key()),
    }
}

#[verifier::opaque]
pub open spec fn agg_table(c: CtxV, a: AstV, rows: Seq<RowV>) -> Result<Seq<KeyedV>, Missing>
    decreases a, rows.len() + 2,
{
    if rows.len() == 0 {
        Ok(Seq::empty())
    } else {
        match agg_table(c, a, rows.drop_last()) {
            Err(e) => Err(e),
            Ok(rest) => match agg_row(c, a, rows.last()) {
                Err(e) => Err(e),
                Ok(k) => Ok(rest.push(k)),
            },
        }
    }
}

/// The value of an output of an aggregate block, and its default where that
/// is null.
#[verifier::opaque]
pub open spec fn output(c: CtxV, o: AggOutputV, env: EnvV) -> Result<ValueV, Missing>
    decreases o, 0nat,
{
    match o {
        AggOutputV::Leaf { expr, default } => match first(run(c, *expr, env, ValueV::Null)) {
            Err(e) => Err(e),
            Ok(x) => if !(or_null(x) is Null) {
                Ok(or_null(x))
            } else {
                match default {
                    None => Ok(ValueV::Null),
                    Some(d) => match first(run(c, *d, env, ValueV::Null)) {
                        Err(e) => Err(e),
                        Ok(y) => Ok(or_null(y)),
                    },
                }
            },
        },
        AggOutputV::Object(fields) => match outputs(c, fields, env) {
            Err(e) => Err(e),
            Ok(f) => Ok(ValueV::Object(f)),
        },
    }
}

#[verifier::opaque]
pub open spec fn outputs(c: CtxV, o: Seq<(Seq<char>, AggOutputV)>, env: EnvV) -> Result<
    Seq<(Seq<char>, ValueV)>,
    Missing,
>
    decreases o, 0nat,
{
    if o.len() == 0 {
        Ok(Seq::empty())
    } else {
        match outputs(c, o.drop_last(), env) {
            Err(e) => Err(e),
            Ok(rest) => match output(c, o.last().1, env) {
                Err(e) => Err(e),
                Ok(v) => Ok(rest.push((o.last().0, v))),
            },
        }
    }
}

/// A row for each output of a block without groups.
#[verifier::opaque]
pub open spec fn output_rows(
    c: CtxV,
    o: Seq<(Seq<char>, AggOutputV)>,
    inside: EnvV,
    env: EnvV,
) -> StreamV
    decreases o, 0nat,
{
    if o.len() == 0 {
        no_rows()
    } else {
        let s = output_rows(c, o.drop_last(), inside, env);
        match s.err {
            Some(e) => s,
            None => match output(c, o.last().1, inside) {
                Err(e) => StreamV { rows: s.rows, err: Some(e) },
                Ok(v) => StreamV {
                    rows: s.rows.push(RowV { env, value: named_output(o.last().0, v) }),
                    err: None,
                },
            },
        }
    }
}

pub open spec fn with_slots(env: EnvV, slots: Seq<Option<u64>>) -> EnvV {
    EnvV { binds: env.binds, slots }
}

/// A row for each group: its keys, then the outputs.
#[verifier::opaque]
pub open spec fn bucket_rows(
    c: CtxV,
    o: Seq<(Seq<char>, AggOutputV)>,
    names: Seq<Seq<char>>,
    ops: Seq<ReducerOp>,
    b: Seq<BucketV>,
    env: EnvV,
) -> StreamV
    decreases o, b.len() + 1,
{
    if b.len() == 0 {
        no_rows()
    } else {
        let s = bucket_rows(c, o, names, ops, b.drop_last(), env);
        match s.err {
            Some(e) => s,
            None => match outputs(c, o, with_slots(env, slots_of(c, ops, b.last()))) {
                Err(e) => StreamV { rows: s.rows, err: Some(e) },
                Ok(f) => StreamV {
                    rows: s.rows.push(
                        RowV { env, value: ValueV::BucketRow(key_columns(names, b.last()) + f) },
                    ),
                    err: None,
                },
            },
        }
    }
}

/// The rows of an aggregate block, from its table.
#[verifier::opaque]
pub open spec fn agg_rows(
    c: CtxV,
    g: Option<AggGroupV>,
    ops: Seq<ReducerOp>,
    o: Seq<(Seq<char>, AggOutputV)>,
    t: Seq<KeyedV>,
    env: EnvV,
) -> StreamV
    decreases o, rolled_len(c, g, ops, t) + 2,
{
    match g {
        None => output_rows(
            c,
            o,
            with_slots(env, slots_of(c, ops, grouped(c, ops, t, 0)[0])),
            env,
        ),
        Some(AggGroupV::Single { name, .. }) => bucket_rows(
            c,
            o,
            seq![name],
            ops,
            grouped(c, ops, t, 1),
            env,
        ),
        Some(AggGroupV::Rollup(keys)) => bucket_rows(
            c,
            o,
            roll_names(keys),
            ops,
            rolled_up(c, ops, t, keys.len()),
            env,
        ),
    }
}

/// How many groups a block has.
pub open spec fn rolled_len(
    c: CtxV,
    g: Option<AggGroupV>,
    ops: Seq<ReducerOp>,
    t: Seq<KeyedV>,
) -> nat {
    match g {
        None => 0,
        Some(AggGroupV::Single { .. }) => grouped(c, ops, t, 1).len(),
        Some(AggGroupV::Rollup(keys)) => rolled_up(c, ops, t, keys.len()).len(),
    }
}

/// A stage run on a stream. Reductions, groups, sorts, limits and `distinct`
/// see the whole stream; every other stage sees one row at a time.
#[verifier::opaque]
pub open spec fn after(c: CtxV, r: AstV, env: EnvV, s: StreamV) -> StreamV
    decreases r, s.rows.len() + 3,
{
    match r {
        AstV::Sum => reduced(c, ReducerOp::Sum, env, s),
        AstV::Min => reduced(c, ReducerOp::Min, env, s),
        AstV::Max => reduced(c, ReducerOp::Max, env, s),
        AstV::Avg => reduced(c, ReducerOp::Avg, env, s),
        AstV::Count => reduced(c, ReducerOp::Count, env, s),
        AstV::By(e, k) => match by_table(c, r, s.rows) {
            Err(x) => broken(x),
            Ok(t) => match s.err {
                Some(x) => broken(x),
                None => all_of(env, by_groups(c, by_parts(*e).0, t)),
            },
        },
        AstV::SortBy(keys) => sorted(c, keys, None, env, s),
        AstV::Limit(n) => limited(s, n as nat),
        AstV::Distinct => StreamV { rows: distinct_rows(c, s.rows), err: s.err },
        AstV::AggregateBlock { group, reductions, outputs } => match agg_table(c, r, s.rows) {
            Err(x) => broken(x),
            Ok(t) => match s.err {
                Some(x) => broken(x),
                None => agg_rows(
                    c,
                    group,
                    ops_of(reductions),
                    outputs,
                    t,
                    env,
                ),
            },
        },
        _ => followed(each(c, r, s.rows), s.err),
    }
}

/// How many of `n` rows are taken when `k` are asked for.
pub open spec fn taken(k: Option<nat>, n: nat) -> nat {
    match k {
        Some(m) => if m < n {
            m
        } else {
            n
        },
        None => n,
    }
}

/// What is left to ask for after `n` rows.
pub open spec fn less(k: Option<nat>, n: nat) -> Option<nat> {
    match k {
        Some(m) => Some(
            if m < n {
                0
            } else {
                (m - n) as nat
            },
        ),
        None => None,
    }
}

/// How many rows it takes, from `i` on, to have `k` different ones.
pub open spec fn pulled_distinct(c: CtxV, rows: Seq<RowV>, i: nat, k: Option<nat>) -> Option<nat>
    decreases rows.len() - i,
{
    match k {
        None => None,
        Some(m) => if i >= rows.len() {
            None
        } else if distinct_rows(c, rows.take(i as int + 1)).len() >= m {
            Some(i + 1)
        } else {
            pulled_distinct(c, rows, i + 1, k)
        },
    }
}

/// A limit takes one row more than it gives, to see that there is one.
pub open spec fn pulled_limit(n: nat, k: Option<nat>) -> Option<nat> {
    match k {
        Some(m) => Some(
            if m <= n {
                m
            } else {
                n + 1
            },
        ),
        None => Some(n + 1),
    }
}

/// The name that a stage binds.
pub open spec fn binds(a: AstV) -> Option<Seq<char>> {
    match a {
        AstV::Let { name, .. } => Some(name),
        AstV::JoinEach { alias, .. } => Some(alias),
        AstV::UnnestEach { alias, .. } => Some(alias),
        _ => None,
    }
}

/// A stage that gives its rows after it has read all of its input.
pub open spec fn reads_all(a: AstV) -> bool {
    a is Sum || a is Min || a is Max || a is Avg || a is Count || a is By || a is SortBy
        || a is AggregateBlock
}

/// The bindings `env`, with `name` as the last of the first `n` rows has it.
pub open spec fn rebound(env: EnvV, name: Seq<char>, rows: Seq<RowV>, n: nat) -> EnvV {
    if n == 0 {
        env
    } else {
        match rows[n - 1].env.get(name) {
            Some(x) => env.bind(name, x),
            None => env,
        }
    }
}

/// How many rows a stage takes, from row `i` on, to give `k` rows.
#[verifier::opaque]
pub open spec fn pulled(c: CtxV, r: AstV, rows: Seq<RowV>, i: nat, k: Option<nat>) -> Option<nat>
    decreases r, rows.len() - i + 7,
{
    if k is None || i >= rows.len() {
        None
    } else {
        let t = run(c, r, rows[i as int].env, rows[i as int].value);
        if t.err is Some || less(k, t.rows.len()) == Some(0nat) {
            Some(i + 1)
        } else {
            pulled(c, r, rows, i + 1, less(k, t.rows.len()))
        }
    }
}

/// How many rows a stage asks of its source to give `k` rows.
#[verifier::opaque]
pub open spec fn asked_for(c: CtxV, r: AstV, rows: Seq<RowV>, k: Option<nat>) -> Option<nat>
    decreases r, rows.len() + 8,
{
    match r {
        AstV::Sum => None,
        AstV::Min => None,
        AstV::Max => None,
        AstV::Avg => None,
        AstV::Count => None,
        AstV::By(_, _) => None,
        AstV::SortBy(_) => None,
        AstV::AggregateBlock { .. } => None,
        AstV::Limit(n) => pulled_limit(n as nat, k),
        AstV::Distinct => pulled_distinct(c, rows, 0, k),
        _ => pulled(c, r, rows, 0, k),
    }
}

/// The names that a tree leaves bound once `k` of its rows are taken, or all:
/// each row that a stage binds overwrites the one before, whether or not a
/// later stage drops it.
#[verifier::opaque]
pub open spec fn left(c: CtxV, a: AstV, env: EnvV, v: ValueV, k: Option<nat>) -> EnvV
    decreases a, 5nat,
{
    match a {
        AstV::Pipe(l, r) => {
            let below = left(
                c,
                *l,
                env,
                v,
                asked_for(c, *r, run(c, *l, env, v).rows, k),
            );
            match binds(*r) {
                Some(name) => rebound(
                    below,
                    name,
                    run(c, a, env, v).rows,
                    taken(k, run(c, a, env, v).rows.len()),
                ),
                None => below,
            }
        },
        AstV::Tap(e) => left(c, *e, env, v, k),
        _ => match binds(a) {
            Some(name) => rebound(
                env,
                name,
                run(c, a, env, v).rows,
                taken(k, run(c, a, env, v).rows.len()),
            ),
            None => env,
        },
    }
}

/// The bindings under which a stage behind `l` gives its rows.
#[verifier::opaque]
pub open spec fn stage_env(c: CtxV, l: AstV, r: AstV, env: EnvV, v: ValueV) -> EnvV
    decreases l, 6nat,
{
    if reads_all(r) {
        left(c, l, env, v, None)
    } else {
        env
    }
}

/// What a query tree gives on a value.
#[verifier::opaque]
pub open spec fn run(c: CtxV, a: AstV, env: EnvV, v: ValueV) -> StreamV
    decreases a, 0nat,
{
    match a {
        AstV::Identity => one(env, v),
        AstV::Field(n) => opt_row(env, field_of(c, n, v)),
        AstV::Index(i) => opt_row(env, element_of(c, i, v)),
        AstV::Iterate => all_of(env, kids_of(c, v)),
        AstV::Pipe(l, r) => match (*l, *r) {
            (AstV::Pipe(source, mid), AstV::Limit(n)) => match *mid {
                AstV::SortBy(keys) => sorted(
                    c,
                    keys,
                    Some(n as nat),
                    left(c, *source, env, v, None),
                    run(c, *source, env, v),
                ),
                _ => after(c, *r, stage_env(c, *l, *r, env, v), run(c, *l, env, v)),
            },
            _ => after(c, *r, stage_env(c, *l, *r, env, v), run(c, *l, env, v)),
        },
        AstV::Descend => all_of(env, below_of(c, v)),
        AstV::DescendField(n) => all_of(env, fields_below(c, n, v)),
        AstV::IterateField(n) => all_of(env, kid_fields(c, n, v)),
        AstV::LitNumber(t) => one(env, literal(c, t)),
        AstV::LitString(s) => one(env, ValueV::Str(s)),
        AstV::LitBool(b) => one(env, ValueV::Bool(b)),
        AstV::LitNull => one(env, ValueV::Null),
        AstV::Compare(l, op, r) => {
            let x = run(c, *l, env, v);
            let y = run(c, *r, env, v);
            match (x.err, y.err) {
                (Some(e), _) => broken(e),
                (None, Some(e)) => broken(e),
                (None, None) => all_of(
                    env,
                    comparisons(c, values_of(x.rows), op, values_of(y.rows)),
                ),
            }
        },
        AstV::And(l, r) => match any_true(c.doc, run(c, *l, env, v)) {
            Ok(true) => flag(env, any_true(c.doc, run(c, *r, env, v))),
            x => flag(env, x),
        },
        AstV::Or(l, r) => match any_true(c.doc, run(c, *l, env, v)) {
            Ok(false) => flag(env, any_true(c.doc, run(c, *r, env, v))),
            x => flag(env, x),
        },
        AstV::Not => one(env, ValueV::Bool(!truthy(c.doc, v))),
        AstV::Select(p) => match any_true(c.doc, run(c, *p, env, v)) {
            Ok(true) => one(env, v),
            Ok(false) => no_rows(),
            Err(e) => broken(e),
        },
        AstV::Sum => one(env, v),
        AstV::Min => one(env, v),
        AstV::Max => one(env, v),
        AstV::Avg => one(env, v),
        AstV::Count => one(env, v),
        AstV::By(_, _) => one(env, v),
        AstV::SortBy(_) => one(env, v),
        AstV::Limit(_) => one(env, v),
        AstV::Distinct => one(env, v),
        AstV::AggregateBlock { .. } => one(env, v),
        AstV::Lookup { source, key, source_canon, key_canon } => lookup_rows(
            c,
            source_canon,
            key_canon,
            env,
            v,
        ),
        AstV::KeyTuple(parts) => match firsts(c, parts, env, v) {
            Err(e) => broken(e),
            Ok(x) => one(env, ValueV::Str(joined_key(c, x))),
        },
        AstV::Project(fields) => match named_firsts(c, fields, env, v) {
            Err(e) => broken(e),
            Ok(x) => one(env, object_of(names_of(fields), x)),
        },
        AstV::Object(fields) => match named_firsts(c, fields, env, v) {
            Err(e) => broken(e),
            Ok(x) => one(env, object_of(names_of(fields), x)),
        },
        AstV::Exists(e) => match first(run(c, *e, env, v)) {
            Err(x) => broken(x),
            Ok(o) => one(env, ValueV::Bool(o is Some)),
        },
        AstV::Tap(e) => run(c, *e, env, v),
        AstV::Let { name, value } => match first(run(c, *value, env, v)) {
            Err(e) => broken(e),
            Ok(o) => one(env.bind(name, or_null(o)), v),
        },
        AstV::Var(n) => opt_row(env, env.get(n)),
        AstV::FieldSetEquals { base, fields, target } => match first(run(c, *target, env, v)) {
            Err(e) => broken(e),
            Ok(None) => one(env, ValueV::Bool(false)),
            Ok(Some(t)) => match first(run(c, *base, env, v)) {
                Err(e) => broken(e),
                Ok(o) => one(
                    env,
                    ValueV::Bool(
                        o matches Some(ValueV::Node(id)) && c.doc.kind_of(id) == NodeKind::Object
                            && fields_equal(c, id, fields, t),
                    ),
                ),
            },
        },
        AstV::Binary { op, lhs, rhs } => match first(run(c, *lhs, env, v)) {
            Err(e) => broken(e),
            Ok(x) => match first(run(c, *rhs, env, v)) {
                Err(e) => broken(e),
                Ok(y) => one(env, computed(c, binary_num(op), number_opt(c, x), number_opt(c, y))),
            },
        },
        AstV::Neg(e) => match first(run(c, *e, env, v)) {
            Err(x) => broken(x),
            Ok(o) => one(
                env,
                match number_opt(c, o) {
                    Some(n) => ValueV::Number((c.n.apply)(NumOp::Neg, n, 0)),
                    None => ValueV::Null,
                },
            ),
        },
        AstV::ReducerSlot(i) => one(env, opt_number(env.slot(i as int))),
        AstV::TypeTest { value, kind, negated } => type_tests(
            c,
            env,
            run(c, *value, env, v),
            kind,
            negated,
        ),
        AstV::Round { value, precision } => match first(run(c, *value, env, v)) {
            Err(e) => broken(e),
            Ok(x) => match precision {
                None => one(
                    env,
                    computed(
                        c,
                        NumOp::Round,
                        number_opt(c, x),
                        Some((c.n.apply)(NumOp::OfInt, 0, 0)),
                    ),
                ),
                Some(p) => match first(run(c, *p, env, v)) {
                    Err(e) => broken(e),
                    Ok(y) => one(
                        env,
                        computed(c, NumOp::Round, number_opt(c, x), number_opt(c, y)),
                    ),
                },
            },
        },
        AstV::JoinEach { alias, outer_key, lookup, inner } => {
            let keys = run(c, *outer_key, env, v);
            joined(alias, inner, env, v, followed(each(c, *lookup, keys.rows), keys.err))
        },
        AstV::UnnestEach { alias, source } => match first(run(c, *source, env, v)) {
            Err(e) => broken(e),
            Ok(o) => StreamV {
                rows: bound_rows(env, alias, elements_of(c, o), v),
                err: None,
            },
        },
        AstV::Subquery { pipeline } => run(c, *pipeline, env, ValueV::Node(c.root)),
        AstV::ArrayLit(items) => match firsts(c, items, env, v) {
            Err(e) => broken(e),
            Ok(x) => one(env, ValueV::Array(Seq::new(x.len(), |i: int| or_null(x[i])))),
        },
        AstV::Call { name, args } => match firsts(c, args, env, v) {
            Err(e) => broken(e),
            Ok(x) => one(env, called(c, name, x)),
        },
        AstV::If { cond, then_branch, else_branch } => match any_true(
            c.doc,
            run(c, *cond, env, v),
        ) {
            Err(e) => broken(e),
            Ok(true) => run(c, *then_branch, env, v),
            Ok(false) => run(c, *else_branch, env, v),
        },
    }
}

} // verus!
