//! The walk over a query tree.
use vstd::prelude::*;

use super::super::ast::{
    field_views, group_key_views, key_views, opt_view, output_views, reduction_views, views,
    AggGroup, AggGroupKey, AggOutputNode, AggReduction, Ast, AstV, ReducerOp, SortDir,
};
use super::super::index::ScalarKeyV;
use super::super::number::{NumOp, Numbers};
use super::super::value::{member_views, Scalar, ScalarV, Value, ValueV};
use super::functions::{arg_views, call, compute, opt_number, opt_value_view};
use super::groups::{
    all_fit, bucket_fits, bucket_views, effective_topk, emit_sorted, finalize_slots,
    fits, group_rows, group_values, input_views, key_pair, keyed_views, nodes_in, one_group,
    pair_view, pair_views, roll_up, scalar_views, table_views, without_nulls, Bucket, Keyed,
};
use super::model::{
    binary_num, broken, computed, first, key_columns, keys_to, named_output, ops_of, number_opt,
    one, or_null, reducer_of, scalars_of, CtxV, EnvV, KeyedV, Missing, ReducerState, RowV, StreamV,
};
use super::pieces::{
    below, below_fields, compare_all, distinct_prefix, element, elements, field, fields_of_kids, follow, join_key,
    join_rows, bind_rows, kids, make_array, make_object, num_op, number_literal, run_distinct,
    run_limit, scan_field_set_equals, test_types,
};
use super::scan::{push_value, seen};
use super::semantics::{
    after, agg_row, agg_rows, agg_table, asked_for, binds, bucket_rows, by_keyed, by_parts, by_row, by_table, dirs_of,
    each, firsts, group_keys, left, less, named_firsts, no_key, output, output_rows, outputs, pulled,
    pulled_distinct, pulled_limit, reads_all, rebound, reduced,
    roll_keys, roll_names, run, seen_by, seen_by_all, sort_firsts, sort_table, sorted, stage_env, taken,
    with_slots,
};
use super::stream::{
    err_view, push_row, row_views, rows_true, run_lookup, Ctx, Env, EvalError, Row, Stream,
};
use crate::document::NodeKind;

verus! {

pub open spec fn args_result(r: Result<Vec<Option<Value>>, EvalError>) -> Result<
    Seq<Option<ValueV>>,
    Missing,
> {
    match r {
        Ok(v) => Ok(arg_views(v@)),
        Err(e) => Err(e@),
    }
}

pub open spec fn table_result(r: Result<Vec<Vec<Scalar>>, EvalError>) -> Result<
    Seq<Seq<ScalarV>>,
    Missing,
> {
    match r {
        Ok(v) => Ok(table_views(v@)),
        Err(e) => Err(e@),
    }
}

pub open spec fn keyed_result(r: Result<Keyed, EvalError>) -> Result<KeyedV, Missing> {
    match r {
        Ok(k) => Ok(k@),
        Err(e) => Err(e@),
    }
}

pub open spec fn keyed_table(r: Result<Vec<Keyed>, EvalError>) -> Result<Seq<KeyedV>, Missing> {
    match r {
        Ok(v) => Ok(keyed_views(v@)),
        Err(e) => Err(e@),
    }
}

pub open spec fn inputs_result(r: Result<Vec<Vec<Value>>, EvalError>) -> Result<
    Seq<Seq<ValueV>>,
    Missing,
> {
    match r {
        Ok(v) => Ok(input_views(v@)),
        Err(e) => Err(e@),
    }
}

pub open spec fn values_result(r: Result<Vec<Value>, EvalError>) -> Result<Seq<ValueV>, Missing> {
    match r {
        Ok(v) => Ok(seen(v@)),
        Err(e) => Err(e@),
    }
}

pub open spec fn keys_result(r: Result<Vec<Option<(super::super::index::ScalarKey, Value)>>, EvalError>) -> Result<
    Seq<Option<(ScalarKeyV, ValueV)>>,
    Missing,
> {
    match r {
        Ok(v) => Ok(pair_views(v@)),
        Err(e) => Err(e@),
    }
}

pub open spec fn value_result(r: Result<Value, EvalError>) -> Result<ValueV, Missing> {
    match r {
        Ok(v) => Ok(v@),
        Err(e) => Err(e@),
    }
}

pub open spec fn members_result(r: Result<Vec<(String, Value)>, EvalError>) -> Result<
    Seq<(Seq<char>, ValueV)>,
    Missing,
> {
    match r {
        Ok(v) => Ok(super::stream::bind_views(v@)),
        Err(e) => Err(e@),
    }
}

/// Gives up a table where it broke.
pub fn settle<T>(v: T, err: Option<EvalError>) -> (r: Result<T, EvalError>)
    ensures
        r == match err {
            Some(e) => Err::<T, EvalError>(e),
            None => Ok::<T, EvalError>(v),
        },
{
    match err {
        Some(e) => Err(e),
        None => Ok(v),
    }
}

/// The first value of each expression.
#[verifier::spinoff_prover]
fn walk_firsts<N: Numbers>(c: &Ctx<N>, es: &Vec<Ast>, env: &Env, v: &Value) -> (r: Result<
    Vec<Option<Value>>,
    EvalError,
>)
    requires
        c.wf(),
    ensures
        args_result(r) == firsts(c@, views(es@), env@, v@),
        r matches Ok(o) ==> o@.len() == es@.len(),
    decreases es, 0nat,
{
    let ghost all = views(es@);
    let mut out: Vec<Option<Value>> = Vec::new();
    let mut err: Option<EvalError> = None;
    let mut i: usize = 0;
    proof {
        reveal(firsts);
        reveal(run);
        assert(all.take(0) =~= Seq::empty());
        assert(arg_views(out@) =~= Seq::empty());
    }
    while i < es.len()
        invariant
            c.wf(),
            i <= es@.len(),
            all == views(es@),
            all.len() == es@.len(),
            err is None ==> out@.len() == i,
            firsts(c@, all.take(i as int), env@, v@) == args_result(
                match err {
                    Some(e) => Err(e),
                    None => Ok(out),
                },
            ),
        decreases es@.len() - i,
    {
        proof {
            reveal(firsts);
            reveal(run);
            let next = all.take(i + 1);
            assert(next.drop_last() =~= all.take(i as int));
            assert(next.last() == all[i as int]);
            assert(decreases_to!(es => es@[i as int]));
        }
        if err.is_none() {
            match walk(c, &es[i], env, v).first() {
                Ok(o) => {
                    let ghost before = arg_views(out@);
                    let ghost added = opt_value_view(o);
                    out.push(o);
                    assert(arg_views(out@) =~= before.push(added));
                },
                Err(e) => {
                    err = Some(e);
                },
            }
        }
        i += 1;
    }
    assert(all.take(i as int) =~= all);
    settle(out, err)
}

/// The first value of each named expression.
#[verifier::spinoff_prover]
fn walk_named<N: Numbers>(c: &Ctx<N>, es: &Vec<(String, Ast)>, env: &Env, v: &Value) -> (r: Result<
    Vec<Option<Value>>,
    EvalError,
>)
    requires
        c.wf(),
    ensures
        args_result(r) == named_firsts(c@, field_views(es@), env@, v@),
        r matches Ok(o) ==> o@.len() == es@.len(),
    decreases es, 0nat,
{
    let ghost all = field_views(es@);
    let mut out: Vec<Option<Value>> = Vec::new();
    let mut err: Option<EvalError> = None;
    let mut i: usize = 0;
    proof {
        reveal(named_firsts);
        reveal(run);
        assert(all.take(0) =~= Seq::empty());
        assert(arg_views(out@) =~= Seq::empty());
    }
    while i < es.len()
        invariant
            c.wf(),
            i <= es@.len(),
            all == field_views(es@),
            all.len() == es@.len(),
            err is None ==> out@.len() == i,
            named_firsts(c@, all.take(i as int), env@, v@) == args_result(
                match err {
                    Some(e) => Err(e),
                    None => Ok(out),
                },
            ),
        decreases es@.len() - i,
    {
        proof {
            reveal(named_firsts);
            reveal(run);
            let next = all.take(i + 1);
            assert(next.drop_last() =~= all.take(i as int));
            assert(next.last() == all[i as int]);
            assert(decreases_to!(es => es@[i as int]));
        }
        if err.is_none() {
            match walk(c, &es[i].1, env, v).first() {
                Ok(o) => {
                    let ghost before = arg_views(out@);
                    let ghost added = opt_value_view(o);
                    out.push(o);
                    assert(arg_views(out@) =~= before.push(added));
                },
                Err(e) => {
                    err = Some(e);
                },
            }
        }
        i += 1;
    }
    assert(all.take(i as int) =~= all);
    settle(out, err)
}

/// The sort keys of a row.
#[verifier::spinoff_prover]
fn walk_sort_keys<N: Numbers>(c: &Ctx<N>, es: &Vec<(Ast, SortDir)>, env: &Env, v: &Value) -> (r: Result<
    Vec<Option<Value>>,
    EvalError,
>)
    requires
        c.wf(),
    ensures
        args_result(r) == sort_firsts(c@, key_views(es@), env@, v@),
        r matches Ok(o) ==> o@.len() == es@.len(),
    decreases es, 0nat,
{
    let ghost all = key_views(es@);
    let mut out: Vec<Option<Value>> = Vec::new();
    let mut err: Option<EvalError> = None;
    let mut i: usize = 0;
    proof {
        reveal(sort_firsts);
        reveal(run);
        assert(all.take(0) =~= Seq::empty());
        assert(arg_views(out@) =~= Seq::empty());
    }
    while i < es.len()
        invariant
            c.wf(),
            i <= es@.len(),
            all == key_views(es@),
            all.len() == es@.len(),
            err is None ==> out@.len() == i,
            sort_firsts(c@, all.take(i as int), env@, v@) == args_result(
                match err {
                    Some(e) => Err(e),
                    None => Ok(out),
                },
            ),
        decreases es@.len() - i,
    {
        proof {
            reveal(sort_firsts);
            reveal(run);
            let next = all.take(i + 1);
            assert(next.drop_last() =~= all.take(i as int));
            assert(next.last() == all[i as int]);
            assert(decreases_to!(es => es@[i as int]));
        }
        if err.is_none() {
            match walk(c, &es[i].0, env, v).first() {
                Ok(o) => {
                    let ghost before = arg_views(out@);
                    let ghost added = opt_value_view(o);
                    out.push(o);
                    assert(arg_views(out@) =~= before.push(added));
                },
                Err(e) => {
                    err = Some(e);
                },
            }
        }
        i += 1;
    }
    assert(all.take(i as int) =~= all);
    settle(out, err)
}

/// The scalars of sort keys.
fn to_scalars<N: Numbers>(c: &Ctx<N>, v: &Vec<Option<Value>>) -> (out: Vec<Scalar>)
    requires
        c.wf(),
    ensures
        scalar_views(out@) == scalars_of(c@, arg_views(v@)),
        out@.len() == v@.len(),
{
    let ghost all = scalars_of(c@, arg_views(v@));
    let mut out: Vec<Scalar> = Vec::new();
    let mut i: usize = 0;
    while i < v.len()
        invariant
            c.wf(),
            i <= v@.len(),
            all == scalars_of(c@, arg_views(v@)),
            out@.len() == i,
            scalar_views(out@) =~= all.take(i as int),
        decreases v@.len() - i,
    {
        let s = match &v[i] {
            Some(x) => Scalar::from_value(c.doc, c.num, x),
            None => Scalar::from_value(c.doc, c.num, &Value::Null),
        };
        let ghost before = scalar_views(out@);
        let ghost added = s@;
        assert(added == all[i as int]);
        out.push(s);
        assert(scalar_views(out@) =~= before.push(added));
        i += 1;
    }
    assert(scalar_views(out@) =~= all);
    out
}

/// The sort keys of each row.
#[verifier::spinoff_prover]
fn walk_sort_table<N: Numbers>(c: &Ctx<N>, keys: &Vec<(Ast, SortDir)>, rows: &Vec<Row>) -> (r:
    Result<Vec<Vec<Scalar>>, EvalError>)
    requires
        c.wf(),
    ensures
        table_result(r) == sort_table(c@, key_views(keys@), row_views(rows@)),
        r matches Ok(t) ==> t@.len() == rows@.len(),
        r matches Ok(t) ==> forall|i: int|
            0 <= i < t@.len() ==> (#[trigger] t@[i])@.len() == keys@.len(),
    decreases keys, 1nat,
{
    let ghost all = row_views(rows@);
    let ghost kv = key_views(keys@);
    let mut out: Vec<Vec<Scalar>> = Vec::new();
    let mut err: Option<EvalError> = None;
    let mut i: usize = 0;
    proof {
        reveal(sort_table);
        reveal(sort_firsts);
        assert(all.take(0) =~= Seq::empty());
        assert(table_views(out@) =~= Seq::empty());
    }
    while i < rows.len()
        invariant
            c.wf(),
            i <= rows@.len(),
            all == row_views(rows@),
            kv == key_views(keys@),
            err is None ==> out@.len() == i,
            forall|k: int| 0 <= k < out@.len() ==> (#[trigger] out@[k])@.len() == keys@.len(),
            sort_table(c@, kv, all.take(i as int)) == table_result(
                match err {
                    Some(e) => Err(e),
                    None => Ok(out),
                },
            ),
        decreases rows@.len() - i,
    {
        proof {
            reveal(sort_table);
            reveal(sort_firsts);
            let next = all.take(i + 1);
            assert(next.drop_last() =~= all.take(i as int));
            assert(next.last() == all[i as int]);
            assert(all[i as int] == rows@[i as int]@);
        }
        if err.is_none() {
            match walk_sort_keys(c, keys, &rows[i].env, &rows[i].value) {
                Ok(o) => {
                    let ghost before = table_views(out@);
                    let s = to_scalars(c, &o);
                    let ghost added = scalar_views(s@);
                    out.push(s);
                    assert(table_views(out@) =~= before.push(added));
                },
                Err(e) => {
                    err = Some(e);
                },
            }
        }
        i += 1;
    }
    assert(all.take(i as int) =~= all);
    settle(out, err)
}

fn directions(keys: &Vec<(Ast, SortDir)>) -> (out: Vec<SortDir>)
    ensures
        out@ == dirs_of(key_views(keys@)),
        out@.len() == keys@.len(),
{
    let ghost all = dirs_of(key_views(keys@));
    let mut out: Vec<SortDir> = Vec::new();
    let mut i: usize = 0;
    while i < keys.len()
        invariant
            i <= keys@.len(),
            all == dirs_of(key_views(keys@)),
            out@ =~= all.take(i as int),
        decreases keys@.len() - i,
    {
        assert(key_views(keys@)[i as int].1 == keys@[i as int].1);
        out.push(keys[i].1);
        i += 1;
    }
    assert(out@ =~= all);
    out
}

pub open spec fn limit_view(n: Option<u64>) -> Option<nat> {
    match n {
        Some(k) => Some(k as nat),
        None => None,
    }
}

/// A stream, sorted.
#[verifier::spinoff_prover]
fn walk_sorted<N: Numbers>(
    c: &Ctx<N>,
    keys: &Vec<(Ast, SortDir)>,
    limit: Option<u64>,
    env: &Env,
    s: Stream,
) -> (t: Stream)
    requires
        c.wf(),
    ensures
        t@ == sorted(c@, key_views(keys@), limit_view(limit), env@, s@),
    decreases keys, 2nat,
{
    proof {
        reveal(sorted);
        reveal(sort_table);
    }
    if effective_topk(c, limit) == Some(0u64) {
        let t = Stream { rows: Vec::new(), err: s.err };
        assert(t@.rows =~= Seq::empty());
        return t;
    }
    match walk_sort_table(c, keys, &s.rows) {
        Err(e) => Stream::broken(e),
        Ok(t) => match s.err {
            Some(e) => Stream::broken(e),
            None => emit_sorted(c, &t, &directions(keys), limit, env, &s.rows),
        },
    }
}

/// A stage run on each row.
#[verifier::spinoff_prover]
fn walk_each<N: Numbers>(c: &Ctx<N>, r: &Ast, rows: &Vec<Row>) -> (s: Stream)
    requires
        c.wf(),
    ensures
        s@ == each(c@, r@, row_views(rows@)),
    decreases r, 2nat,
{
    let ghost all = row_views(rows@);
    let mut out: Vec<Row> = Vec::new();
    let mut err: Option<EvalError> = None;
    let mut i: usize = 0;
    proof {
        reveal(each);
        reveal(run);
        assert(all.take(0) =~= Seq::empty());
        assert(row_views(out@) =~= Seq::empty());
    }
    while i < rows.len()
        invariant
            c.wf(),
            i <= rows@.len(),
            all == row_views(rows@),
            each(c@, r@, all.take(i as int)) == (StreamV {
                rows: row_views(out@),
                err: err_view(err),
            }),
        decreases rows@.len() - i,
    {
        proof {
            reveal(each);
            reveal(run);
            let next = all.take(i + 1);
            assert(next.drop_last() =~= all.take(i as int));
            assert(next.last() == all[i as int]);
            assert(all[i as int] == rows@[i as int]@);
        }
        if err.is_none() {
            let mut t = walk(c, r, &rows[i].env, &rows[i].value);
            let ghost before = row_views(out@);
            let ghost added = t@.rows;
            out.append(&mut t.rows);
            assert(row_views(out@) =~= before + added);
            err = t.err;
        }
        i += 1;
    }
    assert(all.take(i as int) =~= all);
    Stream { rows: out, err }
}

/// The reducer that a stage is.
pub(crate) fn reducer(a: &Ast) -> (r: Option<ReducerOp>)
    ensures
        r == reducer_of(a@),
{
    match a {
        Ast::Sum => Some(ReducerOp::Sum),
        Ast::Min => Some(ReducerOp::Min),
        Ast::Max => Some(ReducerOp::Max),
        Ast::Avg => Some(ReducerOp::Avg),
        Ast::Count => Some(ReducerOp::Count),
        _ => None,
    }
}

/// The reducer of a `by` stage.
fn detect_reducer(e: &Ast) -> (r: Option<ReducerOp>)
    ensures
        r == by_parts(e@).0,
{
    match reducer(e) {
        Some(op) => Some(op),
        None => match e {
            Ast::Pipe(_, last) => reducer(last),
            _ => None,
        },
    }
}

fn keyless() -> (k: Keyed)
    ensures
        k@ == no_key(),
{
    let mut keys: Vec<Option<(super::super::index::ScalarKey, Value)>> = Vec::new();
    keys.push(None);
    let k = Keyed { keys, inputs: Vec::new(), nodes: Vec::new() };
    assert(k@.keys =~= no_key().keys);
    assert(k@.inputs =~= Seq::empty());
    assert(k@.nodes =~= Seq::empty());
    k
}

fn by_entry(
    op: Option<ReducerOp>,
    key: (super::super::index::ScalarKey, Value),
    v: Vec<Value>,
) -> (k: Keyed)
    ensures
        k@ == by_keyed(op, (key.0@, key.1@), seen(v@)),
{
    let mut keys: Vec<Option<(super::super::index::ScalarKey, Value)>> = Vec::new();
    keys.push(Some(key));
    let ghost kv = pair_views(keys@);
    assert(kv =~= seq![Some((key.0@, key.1@))]);
    match op {
        Some(_) => {
            let ghost vv = seen(v@);
            let mut inputs: Vec<Vec<Value>> = Vec::new();
            inputs.push(v);
            assert(input_views(inputs@) =~= seq![vv]);
            let nodes: Vec<u32> = Vec::new();
            assert(nodes@ =~= Seq::empty());
            Keyed { keys, inputs, nodes }
        },
        None => {
            let inputs: Vec<Vec<Value>> = Vec::new();
            assert(input_views(inputs@) =~= Seq::empty());
            Keyed { keys, inputs, nodes: nodes_in(&v) }
        },
    }
}

pub open spec fn op_count(op: Option<ReducerOp>) -> nat {
    if op is Some {
        1
    } else {
        0
    }
}

proof fn by_keyed_fits(op: Option<ReducerOp>, key: (ScalarKeyV, ValueV), v: Seq<ValueV>)
    ensures
        fits(by_keyed(op, key, v), op_count(op), 1),
        fits(no_key(), op_count(op), 1),
{
    reveal_with_fuel(keys_to, 2);
}

/// A row of a `by` stage with its key.
#[verifier::spinoff_prover]
fn walk_by_row<N: Numbers>(c: &Ctx<N>, a: &Ast, row: &Row) -> (r: Result<Keyed, EvalError>)
    requires
        c.wf(),
        a is By,
    ensures
        keyed_result(r) == by_row(c@, a@, row@),
        r matches Ok(k) ==> fits(k@, op_count(by_parts(a->By_0@).0), 1),
    decreases a, 1nat,
{
    proof {
        reveal(by_row);
        reveal(run);
    }
    match a {
        Ast::By(e, k) => {
            let o = match walk(c, k, &row.env, &row.value).first() {
                Ok(o) => o,
                Err(x) => {
                    return Err(x);
                },
            };
            let key = match key_pair(c, o) {
                Some(key) => key,
                None => {
                    proof {
                        by_keyed_fits(by_parts(e@).0, arbitrary(), Seq::empty());
                    }
                    return Ok(keyless());
                },
            };
            let op = detect_reducer(e);
            let ghost kv = (key.0@, key.1@);
            if reducer(e).is_some() {
                let mut v: Vec<Value> = Vec::new();
                push_value(&mut v, row.value.copy());
                assert(seen(v@) =~= seq![row@.value]);
                proof {
                    by_keyed_fits(op, kv, seen(v@));
                }
                return Ok(by_entry(op, key, v));
            }
            let s = match &**e {
                Ast::Pipe(l, last) => {
                    if reducer(last).is_some() {
                        walk(c, l, &row.env, &row.value)
                    } else {
                        walk(c, e, &row.env, &row.value)
                    }
                },
                _ => walk(c, e, &row.env, &row.value),
            };
            match s.all() {
                Ok(v) => {
                    proof {
                        by_keyed_fits(op, kv, seen(v@));
                    }
                    Ok(by_entry(op, key, v))
                },
                Err(x) => Err(x),
            }
        },
        _ => Ok(keyless()),
    }
}

#[verifier::spinoff_prover]
fn walk_by_table<N: Numbers>(c: &Ctx<N>, a: &Ast, rows: &Vec<Row>) -> (r: Result<
    Vec<Keyed>,
    EvalError,
>)
    requires
        c.wf(),
        a is By,
    ensures
        keyed_table(r) == by_table(c@, a@, row_views(rows@)),
        r matches Ok(t) ==> all_fit(keyed_views(t@), op_count(by_parts(a->By_0@).0), 1),
    decreases a, 2nat,
{
    let ghost all = row_views(rows@);
    let ghost n = op_count(by_parts(a->By_0@).0);
    let mut out: Vec<Keyed> = Vec::new();
    let mut err: Option<EvalError> = None;
    let mut i: usize = 0;
    proof {
        reveal(by_table);
        reveal(by_row);
        assert(all.take(0) =~= Seq::empty());
        assert(keyed_views(out@) =~= Seq::empty());
    }
    while i < rows.len()
        invariant
            c.wf(),
            a is By,
            n == op_count(by_parts(a->By_0@).0),
            i <= rows@.len(),
            all == row_views(rows@),
            all_fit(keyed_views(out@), n, 1),
            by_table(c@, a@, all.take(i as int)) == keyed_table(
                match err {
                    Some(e) => Err(e),
                    None => Ok(out),
                },
            ),
        decreases rows@.len() - i,
    {
        proof {
            reveal(by_table);
            reveal(by_row);
            let next = all.take(i + 1);
            assert(next.drop_last() =~= all.take(i as int));
            assert(next.last() == all[i as int]);
            assert(all[i as int] == rows@[i as int]@);
        }
        if err.is_none() {
            match walk_by_row(c, a, &rows[i]) {
                Ok(k) => {
                    let ghost before = keyed_views(out@);
                    let ghost added = k@;
                    out.push(k);
                    assert(keyed_views(out@) =~= before.push(added));
                },
                Err(e) => {
                    err = Some(e);
                },
            }
        }
        i += 1;
    }
    assert(all.take(i as int) =~= all);
    settle(out, err)
}

/// What a reduction sees of a row.
#[verifier::spinoff_prover]
fn walk_seen_by<N: Numbers>(c: &Ctx<N>, a: &AggReduction, row: &Row) -> (r: Result<
    Vec<Value>,
    EvalError,
>)
    requires
        c.wf(),
    ensures
        values_result(r) == seen_by(c@, a@, row@),
    decreases a, 0nat,
{
    proof {
        reveal(seen_by);
        reveal(run);
    }
    if let Some(p) = &a.where_pred {
        let s = walk(c, p, &row.env, &row.value);
        if let Some(e) = s.err {
            return Err(e);
        }
        if !rows_true(&s.rows, c.doc) {
            return Ok(super::pieces::no_values());
        }
    }
    match &a.value {
        None => {
            let mut v: Vec<Value> = Vec::new();
            push_value(&mut v, row.value.copy());
            assert(seen(v@) =~= seq![row@.value]);
            Ok(v)
        },
        Some(x) => match walk(c, x, &row.env, &row.value).all() {
            Ok(v) => {
                if a.op == ReducerOp::Count {
                    Ok(without_nulls(v))
                } else {
                    Ok(v)
                }
            },
            Err(e) => Err(e),
        },
    }
}

#[verifier::spinoff_prover]
fn walk_seen_by_all<N: Numbers>(c: &Ctx<N>, es: &Vec<AggReduction>, row: &Row) -> (r: Result<
    Vec<Vec<Value>>,
    EvalError,
>)
    requires
        c.wf(),
    ensures
        inputs_result(r) == seen_by_all(c@, reduction_views(es@), row@),
        r matches Ok(o) ==> o@.len() == es@.len(),
    decreases es, 0nat,
{
    let ghost all = reduction_views(es@);
    let mut out: Vec<Vec<Value>> = Vec::new();
    let mut err: Option<EvalError> = None;
    let mut i: usize = 0;
    proof {
        reveal(seen_by_all);
        reveal(seen_by);
        assert(all.take(0) =~= Seq::empty());
        assert(input_views(out@) =~= Seq::empty());
    }
    while i < es.len()
        invariant
            c.wf(),
            i <= es@.len(),
            all == reduction_views(es@),
            all.len() == es@.len(),
            err is None ==> out@.len() == i,
            seen_by_all(c@, all.take(i as int), row@) == inputs_result(
                match err {
                    Some(e) => Err(e),
                    None => Ok(out),
                },
            ),
        decreases es@.len() - i,
    {
        proof {
            reveal(seen_by_all);
            reveal(seen_by);
            let next = all.take(i + 1);
            assert(next.drop_last() =~= all.take(i as int));
            assert(next.last() == all[i as int]);
            assert(decreases_to!(es => es@[i as int]));
        }
        if err.is_none() {
            match walk_seen_by(c, &es[i], row) {
                Ok(o) => {
                    let ghost before = input_views(out@);
                    let ghost added = seen(o@);
                    out.push(o);
                    assert(input_views(out@) =~= before.push(added));
                },
                Err(e) => {
                    err = Some(e);
                },
            }
        }
        i += 1;
    }
    assert(all.take(i as int) =~= all);
    settle(out, err)
}

/// The keys of a row in a rollup.
#[verifier::spinoff_prover]
fn walk_roll_keys<N: Numbers>(c: &Ctx<N>, es: &Vec<AggGroupKey>, row: &Row) -> (r: Result<
    Vec<Option<(super::super::index::ScalarKey, Value)>>,
    EvalError,
>)
    requires
        c.wf(),
    ensures
        keys_result(r) == roll_keys(c@, group_key_views(es@), row@),
        r matches Ok(o) ==> o@.len() == es@.len(),
    decreases es, 0nat,
{
    let ghost all = group_key_views(es@);
    let mut out: Vec<Option<(super::super::index::ScalarKey, Value)>> = Vec::new();
    let mut err: Option<EvalError> = None;
    let mut i: usize = 0;
    proof {
        reveal(roll_keys);
        reveal(run);
        assert(all.take(0) =~= Seq::empty());
        assert(pair_views(out@) =~= Seq::empty());
    }
    while i < es.len()
        invariant
            c.wf(),
            i <= es@.len(),
            all == group_key_views(es@),
            all.len() == es@.len(),
            err is None ==> out@.len() == i,
            roll_keys(c@, all.take(i as int), row@) == keys_result(
                match err {
                    Some(e) => Err(e),
                    None => Ok(out),
                },
            ),
        decreases es@.len() - i,
    {
        proof {
            reveal(roll_keys);
            reveal(run);
            let next = all.take(i + 1);
            assert(next.drop_last() =~= all.take(i as int));
            assert(next.last() == all[i as int]);
            assert(decreases_to!(es => es@[i as int]));
        }
        if err.is_none() {
            match walk(c, &es[i].key, &row.env, &row.value).first() {
                Ok(o) => {
                    let ghost before = pair_views(out@);
                    let k = key_pair(c, o);
                    let ghost added = pair_view(k);
                    out.push(k);
                    assert(pair_views(out@) =~= before.push(added));
                },
                Err(e) => {
                    err = Some(e);
                },
            }
        }
        i += 1;
    }
    assert(all.take(i as int) =~= all);
    settle(out, err)
}

pub open spec fn group_size(g: Option<AggGroup>) -> nat {
    match g {
        None => 0,
        Some(AggGroup::Single { .. }) => 1,
        Some(AggGroup::Rollup(keys)) => keys@.len(),
    }
}

/// The keys of a row in an aggregate block.
#[verifier::spinoff_prover]
fn walk_group_keys<N: Numbers>(c: &Ctx<N>, g: &AggGroup, row: &Row) -> (r: Result<
    Vec<Option<(super::super::index::ScalarKey, Value)>>,
    EvalError,
>)
    requires
        c.wf(),
    ensures
        keys_result(r) == group_keys(c@, g@, row@),
        r matches Ok(o) ==> o@.len() == group_size(Some(*g)),
    decreases g, 0nat,
{
    proof {
        reveal(group_keys);
        reveal(roll_keys);
        reveal(run);
    }
    match g {
        AggGroup::Single { key, .. } => match walk(c, key, &row.env, &row.value).first() {
            Ok(o) => {
                let k = key_pair(c, o);
                let ghost kv = pair_view(k);
                let mut out: Vec<Option<(super::super::index::ScalarKey, Value)>> = Vec::new();
                out.push(k);
                assert(pair_views(out@) =~= seq![kv]);
                Ok(out)
            },
            Err(e) => Err(e),
        },
        AggGroup::Rollup(keys) => walk_roll_keys(c, keys, row),
    }
}

pub open spec fn agg_fits(k: KeyedV, g: Option<AggGroup>, n: nat) -> bool {
    &&& k.keys.len() == group_size(g)
    &&& fits(k, n, group_size(g))
    &&& !(g matches Some(AggGroup::Single { .. })) ==> k.inputs.len() == n
}

/// A row of an aggregate block.
#[verifier::spinoff_prover]
fn walk_agg_row<N: Numbers>(c: &Ctx<N>, a: &Ast, row: &Row) -> (r: Result<Keyed, EvalError>)
    requires
        c.wf(),
        a is AggregateBlock,
    ensures
        keyed_result(r) == agg_row(c@, a@, row@),
        r matches Ok(k) ==> agg_fits(k@, a->group, a->reductions@.len()),
    decreases a, 1nat,
{
    proof {
        reveal(agg_row);
        reveal(group_keys);
        reveal(seen_by_all);
        reveal_with_fuel(keys_to, 2);
    }
    match a {
        Ast::AggregateBlock { group, reductions, .. } => {
            let keys = match group {
                None => {
                    let none: Vec<Option<(super::super::index::ScalarKey, Value)>> = Vec::new();
                    assert(pair_views(none@) =~= Seq::empty());
                    none
                },
                Some(g) => match walk_group_keys(c, g, row) {
                    Ok(k) => k,
                    Err(e) => {
                        return Err(e);
                    },
                },
            };
            if let Some(AggGroup::Single { .. }) = group {
                assert(pair_views(keys@)[0] == pair_view(keys@[0]));
                if keys[0].is_none() {
                    return Ok(keyless());
                }
            }
            match walk_seen_by_all(c, reductions, row) {
                Ok(inputs) => {
                    let k = Keyed { keys, inputs, nodes: Vec::new() };
                    assert(k@.nodes =~= Seq::empty());
                    Ok(k)
                },
                Err(e) => Err(e),
            }
        },
        _ => Ok(keyless()),
    }
}

pub open spec fn agg_all_fit(t: Seq<KeyedV>, g: Option<AggGroup>, n: nat) -> bool {
    forall|i: int| 0 <= i < t.len() ==> agg_fits(#[trigger] t[i], g, n)
}

#[verifier::spinoff_prover]
pub(crate) fn walk_agg_table<N: Numbers>(c: &Ctx<N>, a: &Ast, rows: &Vec<Row>) -> (r: Result<
    Vec<Keyed>,
    EvalError,
>)
    requires
        c.wf(),
        a is AggregateBlock,
    ensures
        keyed_table(r) == agg_table(c@, a@, row_views(rows@)),
        r matches Ok(t) ==> agg_all_fit(keyed_views(t@), a->group, a->reductions@.len()),
    decreases a, 2nat,
{
    let ghost all = row_views(rows@);
    let mut out: Vec<Keyed> = Vec::new();
    let mut err: Option<EvalError> = None;
    let mut i: usize = 0;
    proof {
        reveal(agg_table);
        reveal(agg_row);
        assert(all.take(0) =~= Seq::empty());
        assert(keyed_views(out@) =~= Seq::empty());
    }
    while i < rows.len()
        invariant
            c.wf(),
            a is AggregateBlock,
            i <= rows@.len(),
            all == row_views(rows@),
            agg_all_fit(keyed_views(out@), a->group, a->reductions@.len()),
            agg_table(c@, a@, all.take(i as int)) == keyed_table(
                match err {
                    Some(e) => Err(e),
                    None => Ok(out),
                },
            ),
        decreases rows@.len() - i,
    {
        proof {
            reveal(agg_table);
            reveal(agg_row);
            let next = all.take(i + 1);
            assert(next.drop_last() =~= all.take(i as int));
            assert(next.last() == all[i as int]);
            assert(all[i as int] == rows@[i as int]@);
        }
        if err.is_none() {
            match walk_agg_row(c, a, &rows[i]) {
                Ok(k) => {
                    let ghost before = keyed_views(out@);
                    let ghost added = k@;
                    out.push(k);
                    assert(keyed_views(out@) =~= before.push(added));
                },
                Err(e) => {
                    err = Some(e);
                },
            }
        }
        i += 1;
    }
    assert(all.take(i as int) =~= all);
    settle(out, err)
}

pub(crate) fn value_or_null(o: Option<Value>) -> (v: Value)
    ensures
        v@ == or_null(opt_value_view(o)),
{
    match o {
        Some(v) => v,
        None => Value::Null,
    }
}

pub(crate) fn is_null(v: &Value) -> (b: bool)
    ensures
        b == (v@ is Null),
{
    match v {
        Value::Null => true,
        _ => false,
    }
}

/// The value of an output of an aggregate block.
#[verifier::spinoff_prover]
fn evaluate_output_node<N: Numbers>(c: &Ctx<N>, o: &AggOutputNode, env: &Env) -> (r: Result<
    Value,
    EvalError,
>)
    requires
        c.wf(),
    ensures
        value_result(r) == output(c@, o@, env@),
    decreases o, 0nat,
{
    proof {
        reveal(output);
        reveal(outputs);
        reveal(run);
    }
    match o {
        AggOutputNode::Leaf { expr, default } => {
            let x = match walk(c, expr, env, &Value::Null).first() {
                Ok(x) => value_or_null(x),
                Err(e) => {
                    return Err(e);
                },
            };
            if !is_null(&x) {
                return Ok(x);
            }
            match default {
                None => Ok(Value::Null),
                Some(d) => match walk(c, d, env, &Value::Null).first() {
                    Ok(y) => Ok(value_or_null(y)),
                    Err(e) => Err(e),
                },
            }
        },
        AggOutputNode::Object(fields) => match walk_outputs(c, fields, env) {
            Ok(f) => {
                assert(member_views(f@) =~= super::stream::bind_views(f@));
                Ok(Value::Object(f))
            },
            Err(e) => Err(e),
        },
    }
}

#[verifier::spinoff_prover]
fn walk_outputs<N: Numbers>(c: &Ctx<N>, es: &Vec<(String, AggOutputNode)>, env: &Env) -> (r: Result<
    Vec<(String, Value)>,
    EvalError,
>)
    requires
        c.wf(),
    ensures
        members_result(r) == outputs(c@, output_views(es@), env@),
    decreases es, 0nat,
{
    let ghost all = output_views(es@);
    let mut out: Vec<(String, Value)> = Vec::new();
    let mut err: Option<EvalError> = None;
    let mut i: usize = 0;
    proof {
        reveal(outputs);
        reveal(output);
        assert(all.take(0) =~= Seq::empty());
        assert(super::stream::bind_views(out@) =~= Seq::empty());
    }
    while i < es.len()
        invariant
            c.wf(),
            i <= es@.len(),
            all == output_views(es@),
            all.len() == es@.len(),
            outputs(c@, all.take(i as int), env@) == members_result(
                match err {
                    Some(e) => Err(e),
                    None => Ok(out),
                },
            ),
        decreases es@.len() - i,
    {
        proof {
            reveal(outputs);
            reveal(output);
            let next = all.take(i + 1);
            assert(next.drop_last() =~= all.take(i as int));
            assert(next.last() == all[i as int]);
            assert(decreases_to!(es => es@[i as int]));
        }
        if err.is_none() {
            match evaluate_output_node(c, &es[i].1, env) {
                Ok(o) => {
                    let ghost before = super::stream::bind_views(out@);
                    let ghost added = (es@[i as int].0@, o@);
                    out.push((es[i].0.clone(), o));
                    assert(super::stream::bind_views(out@) =~= before.push(added));
                },
                Err(e) => {
                    err = Some(e);
                },
            }
        }
        i += 1;
    }
    assert(all.take(i as int) =~= all);
    settle(out, err)
}

/// An output of a block without groups, under its name.
fn group_value(name: &str, v: Value) -> (r: Value)
    ensures
        r@ == named_output(name@, v@),
{
    match v {
        Value::Number(x) => Value::Group { key: name.to_owned(), n: Some(x) },
        Value::Null => Value::Group { key: name.to_owned(), n: None },
        _ => Value::NamedValue { name: name.to_owned(), value: Box::new(v) },
    }
}

/// A row for each output of a block without groups.
#[verifier::spinoff_prover]
fn emit_no_by<N: Numbers>(
    c: &Ctx<N>,
    es: &Vec<(String, AggOutputNode)>,
    inside: &Env,
    env: &Env,
) -> (s: Stream)
    requires
        c.wf(),
    ensures
        s@ == output_rows(c@, output_views(es@), inside@, env@),
    decreases es, 0nat,
{
    let ghost all = output_views(es@);
    let mut out: Vec<Row> = Vec::new();
    let mut err: Option<EvalError> = None;
    let mut i: usize = 0;
    proof {
        reveal(output_rows);
        reveal(output);
        assert(all.take(0) =~= Seq::empty());
        assert(row_views(out@) =~= Seq::empty());
    }
    while i < es.len()
        invariant
            c.wf(),
            i <= es@.len(),
            all == output_views(es@),
            all.len() == es@.len(),
            output_rows(c@, all.take(i as int), inside@, env@) == (StreamV {
                rows: row_views(out@),
                err: err_view(err),
            }),
        decreases es@.len() - i,
    {
        proof {
            reveal(output_rows);
            reveal(output);
            let next = all.take(i + 1);
            assert(next.drop_last() =~= all.take(i as int));
            assert(next.last() == all[i as int]);
            assert(decreases_to!(es => es@[i as int]));
        }
        if err.is_none() {
            match evaluate_output_node(c, &es[i].1, inside) {
                Ok(o) => {
                    let value = group_value(es[i].0.as_str(), o);
                    push_row(&mut out, Row { env: env.copy(), value });
                },
                Err(e) => {
                    err = Some(e);
                },
            }
        }
        i += 1;
    }
    assert(all.take(i as int) =~= all);
    Stream { rows: out, err }
}

pub open spec fn name_views(v: Seq<String>) -> Seq<Seq<char>> {
    Seq::new(v.len(), |i: int| v[i]@)
}

/// A group's row: its keys, then the outputs.
fn bucket_row(names: &Vec<String>, b: &Bucket, f: Vec<(String, Value)>) -> (v: Value)
    ensures
        v@ == ValueV::BucketRow(
            key_columns(name_views(names@), b@) + super::stream::bind_views(f@),
        ),
{
    let ghost all = key_columns(name_views(names@), b@);
    let mut out: Vec<(String, Value)> = Vec::new();
    let mut i: usize = 0;
    while i < names.len()
        invariant
            i <= names@.len(),
            all == key_columns(name_views(names@), b@),
            super::stream::bind_views(out@) =~= all.take(i as int),
        decreases names@.len() - i,
    {
        let label = if i < b.labels.len() {
            b.labels[i].copy()
        } else {
            Value::Null
        };
        let ghost before = super::stream::bind_views(out@);
        let ghost added = (names@[i as int]@, label@);
        proof {
            assert(b@.labels.len() == b.labels@.len());
            if i < b.labels@.len() {
                assert(b@.labels[i as int] == b.labels@[i as int]@);
            }
            assert(added == all[i as int]);
        }
        out.push((names[i].clone(), label));
        assert(super::stream::bind_views(out@) =~= before.push(added));
        i += 1;
    }
    assert(all.take(i as int) =~= all);
    let mut rest = f;
    let ghost more = super::stream::bind_views(rest@);
    out.append(&mut rest);
    assert(super::stream::bind_views(out@) =~= all + more);
    assert(member_views(out@) =~= super::stream::bind_views(out@));
    Value::BucketRow(out)
}

/// A row for each group.
#[verifier::spinoff_prover]
fn emit_bucketed<N: Numbers>(
    c: &Ctx<N>,
    es: &Vec<(String, AggOutputNode)>,
    names: &Vec<String>,
    ops: &Vec<ReducerOp>,
    b: &Vec<Bucket>,
    env: &Env,
) -> (s: Stream)
    requires
        c.wf(),
        forall|i: int|
            0 <= i < b@.len() ==> (#[trigger] bucket_views(b@)[i]).states.len() == ops@.len(),
    ensures
        s@ == bucket_rows(
            c@,
            output_views(es@),
            name_views(names@),
            ops@,
            bucket_views(b@),
            env@,
        ),
    decreases es, 1nat,
{
    let ghost all = bucket_views(b@);
    let ghost o = output_views(es@);
    let mut out: Vec<Row> = Vec::new();
    let mut err: Option<EvalError> = None;
    let mut i: usize = 0;
    proof {
        reveal(bucket_rows);
        reveal(outputs);
        assert(all.take(0) =~= Seq::empty());
        assert(row_views(out@) =~= Seq::empty());
    }
    while i < b.len()
        invariant
            c.wf(),
            i <= b@.len(),
            all == bucket_views(b@),
            o == output_views(es@),
            forall|k: int| 0 <= k < b@.len() ==> (#[trigger] all[k]).states.len() == ops@.len(),
            bucket_rows(c@, o, name_views(names@), ops@, all.take(i as int), env@) == (StreamV {
                rows: row_views(out@),
                err: err_view(err),
            }),
        decreases b@.len() - i,
    {
        proof {
            reveal(bucket_rows);
            reveal(outputs);
            let next = all.take(i + 1);
            assert(next.drop_last() =~= all.take(i as int));
            assert(next.last() == all[i as int]);
            assert(all[i as int] == b@[i as int]@);
        }
        if err.is_none() {
            let inside = env.with_slots(finalize_slots(c, ops, &b[i]));
            match walk_outputs(c, es, &inside) {
                Ok(f) => {
                    let value = bucket_row(names, &b[i], f);
                    push_row(&mut out, Row { env: env.copy(), value });
                },
                Err(e) => {
                    err = Some(e);
                },
            }
        }
        i += 1;
    }
    assert(all.take(i as int) =~= all);
    Stream { rows: out, err }
}

fn rollup_names(keys: &Vec<AggGroupKey>) -> (out: Vec<String>)
    ensures
        name_views(out@) == roll_names(group_key_views(keys@)),
{
    let ghost all = roll_names(group_key_views(keys@));
    let mut out: Vec<String> = Vec::new();
    let mut i: usize = 0;
    while i < keys.len()
        invariant
            i <= keys@.len(),
            all == roll_names(group_key_views(keys@)),
            name_views(out@) =~= all.take(i as int),
        decreases keys@.len() - i,
    {
        let ghost before = name_views(out@);
        let ghost added = keys@[i as int].name@;
        assert(group_key_views(keys@)[i as int].name == added);
        out.push(keys[i].name.clone());
        assert(name_views(out@) =~= before.push(added));
        i += 1;
    }
    assert(name_views(out@) =~= all);
    out
}

pub(crate) fn reduction_ops(r: &Vec<AggReduction>) -> (out: Vec<ReducerOp>)
    ensures
        out@ == ops_of(reduction_views(r@)),
        out@.len() == r@.len(),
{
    let ghost all = ops_of(reduction_views(r@));
    let mut out: Vec<ReducerOp> = Vec::new();
    let mut i: usize = 0;
    while i < r.len()
        invariant
            i <= r@.len(),
            all == ops_of(reduction_views(r@)),
            out@ =~= all.take(i as int),
        decreases r@.len() - i,
    {
        assert(reduction_views(r@)[i as int].op == r@[i as int].op);
        out.push(r[i].op);
        i += 1;
    }
    assert(out@ =~= all);
    out
}

/// The rows of an aggregate block, from its table.
#[verifier::spinoff_prover]
fn emit_aggregate<N: Numbers>(
    c: &Ctx<N>,
    group: &Option<AggGroup>,
    ops: &Vec<ReducerOp>,
    es: &Vec<(String, AggOutputNode)>,
    t: &Vec<Keyed>,
    env: &Env,
) -> (s: Stream)
    requires
        c.wf(),
        agg_all_fit(keyed_views(t@), *group, ops@.len()),
    ensures
        s@ == agg_rows(
            c@,
            match *group {
                Some(g) => Some(g@),
                None => None,
            },
            ops@,
            output_views(es@),
            keyed_views(t@),
            env@,
        ),
    decreases es, 2nat,
{
    let ghost tv = keyed_views(t@);
    let ghost n = ops@.len();
    proof {
        reveal(agg_rows);
        reveal(output_rows);
        reveal(bucket_rows);
        assert forall|i: int| 0 <= i < tv.len() implies fits(
            #[trigger] tv[i],
            n,
            group_size(*group),
        ) by {
            assert(agg_fits(tv[i], *group, n));
        }
        assert(all_fit(tv, n, group_size(*group)));
    }
    match group {
        None => {
            let b = group_rows(c, ops, t, 0);
            proof {
                one_group(c, ops@, tv);
                assert(bucket_views(b@)[0] == b@[0]@);
                assert(bucket_fits(bucket_views(b@)[0], n, 0));
            }
            let inside = env.with_slots(finalize_slots(c, ops, &b[0]));
            emit_no_by(c, es, &inside, env)
        },
        Some(AggGroup::Single { name, .. }) => {
            let b = group_rows(c, ops, t, 1);
            let mut names: Vec<String> = Vec::new();
            names.push(name.clone());
            proof {
                assert(name_views(names@) =~= seq![name@]);
                assert forall|i: int| 0 <= i < b@.len() implies (#[trigger] bucket_views(
                    b@,
                )[i]).states.len() == n by {
                    assert(bucket_fits(bucket_views(b@)[i], n, 1));
                }
            }
            emit_bucketed(c, es, &names, ops, &b, env)
        },
        Some(AggGroup::Rollup(keys)) => {
            let p: usize = keys.len();
            proof {
                assert forall|q: nat| q <= p implies #[trigger] all_fit(tv, n, q) by {
                    assert forall|i: int| 0 <= i < tv.len() implies fits(
                        #[trigger] tv[i],
                        n,
                        q,
                    ) by {
                        assert(agg_fits(tv[i], *group, n));
                    }
                }
                assert(group_key_views(keys@).len() == keys@.len());
            }
            let b = roll_up(c, ops, t, p);
            emit_bucketed(c, es, &rollup_names(keys), ops, &b, env)
        },
    }
}

/// A reduction of a whole stream.
fn run_streaming_reducer<N: Numbers>(c: &Ctx<N>, op: ReducerOp, env: &Env, s: Stream) -> (t: Stream)
    requires
        c.wf(),
    ensures
        t@ == reduced(c@, op, env@, s@),
{
    match s.all() {
        Err(e) => Stream::broken(e),
        Ok(v) => {
            let state = ReducerState::new().consume_all(c, op, &v);
            match state.finalize_optional(c, op) {
                Some(x) => Stream::one(env, Value::Number(x)),
                None => Stream::one(env, Value::Null),
            }
        },
    }
}

/// A `by` stage run on a stream.
#[verifier::spinoff_prover]
fn run_by<N: Numbers>(c: &Ctx<N>, a: &Ast, env: &Env, s: Stream) -> (t: Stream)
    requires
        c.wf(),
        a is By,
    ensures
        t@ == after(c@, a@, env@, s@),
    decreases a, 3nat,
{
    proof {
        reveal(after);
        reveal(by_table);
    }
    let table = match walk_by_table(c, a, &s.rows) {
        Ok(t) => t,
        Err(e) => {
            return Stream::broken(e);
        },
    };
    match s.err {
        Some(e) => Stream::broken(e),
        None => {
            let op = match a {
                Ast::By(e, _) => detect_reducer(e),
                _ => None,
            };
            let mut ops: Vec<ReducerOp> = Vec::new();
            if let Some(o) = op {
                ops.push(o);
                assert(ops@ =~= seq![o]);
            } else {
                assert(ops@ =~= Seq::empty());
            }
            let b = group_rows(c, &ops, &table, 1);
            let values = group_values(c, op, &b);
            Stream::all_of(env, values)
        },
    }
}

/// An aggregate block run on a stream.
#[verifier::spinoff_prover]
fn run_aggregate_block<N: Numbers>(c: &Ctx<N>, a: &Ast, env: &Env, s: Stream) -> (t: Stream)
    requires
        c.wf(),
        a is AggregateBlock,
    ensures
        t@ == after(c@, a@, env@, s@),
    decreases a, 3nat,
{
    proof {
        reveal(after);
        reveal(agg_table);
        reveal(agg_rows);
    }
    let table = match walk_agg_table(c, a, &s.rows) {
        Ok(t) => t,
        Err(e) => {
            return Stream::broken(e);
        },
    };
    match s.err {
        Some(e) => Stream::broken(e),
        None => match a {
            Ast::AggregateBlock { group, reductions, outputs } => emit_aggregate(
                c,
                group,
                &reduction_ops(reductions),
                outputs,
                &table,
                env,
            ),
            _ => Stream::none(),
        },
    }
}

/// A stage run on a stream.
#[verifier::spinoff_prover]
fn walk_after<N: Numbers>(c: &Ctx<N>, r: &Ast, env: &Env, s: Stream) -> (t: Stream)
    requires
        c.wf(),
    ensures
        t@ == after(c@, r@, env@, s@),
    decreases r, 4nat,
{
    proof {
        reveal(after);
        reveal(each);
        reveal(sorted);
    }
    match r {
        Ast::Sum => run_streaming_reducer(c, ReducerOp::Sum, env, s),
        Ast::Min => run_streaming_reducer(c, ReducerOp::Min, env, s),
        Ast::Max => run_streaming_reducer(c, ReducerOp::Max, env, s),
        Ast::Avg => run_streaming_reducer(c, ReducerOp::Avg, env, s),
        Ast::Count => run_streaming_reducer(c, ReducerOp::Count, env, s),
        Ast::By(_, _) => run_by(c, r, env, s),
        Ast::SortBy(keys) => walk_sorted(c, keys, None, env, s),
        Ast::Limit(n) => run_limit(s, *n),
        Ast::Distinct => run_distinct(c, s),
        Ast::AggregateBlock { .. } => run_aggregate_block(c, r, env, s),
        _ => {
            let t = walk_each(c, r, &s.rows);
            follow(t, s.err)
        },
    }
}

/// Comparisons, conditions and tests.
#[verifier::spinoff_prover]
fn walk_test<N: Numbers>(c: &Ctx<N>, a: &Ast, env: &Env, v: &Value) -> (s: Stream)
    requires
        c.wf(),
        a is Compare
            || a is And
            || a is Or
            || a is Select
            || a is Exists
            || a is FieldSetEquals
            || a is TypeTest
            || a is If,
    ensures
        s@ == run(c@, a@, env@, v@),
    decreases a, 0nat,
{
    proof {
        reveal(run);
    }
    match a {
        Ast::Compare(l, op, r) => {
            let x = match walk(c, l, env, v).all() {
                Ok(x) => x,
                Err(e) => {
                    return Stream::broken(e);
                },
            };
            match walk(c, r, env, v).all() {
                Ok(y) => Stream::all_of(env, compare_all(c, &x, *op, &y)),
                Err(e) => Stream::broken(e),
            }
        },
        Ast::And(l, r) => match walk(c, l, env, v).any_true(c.doc) {
            Ok(true) => Stream::flag(env, walk(c, r, env, v).any_true(c.doc)),
            x => Stream::flag(env, x),
        },
        Ast::Or(l, r) => match walk(c, l, env, v).any_true(c.doc) {
            Ok(false) => Stream::flag(env, walk(c, r, env, v).any_true(c.doc)),
            x => Stream::flag(env, x),
        },
        Ast::Select(p) => match walk(c, p, env, v).any_true(c.doc) {
            Ok(true) => Stream::one(env, v.copy()),
            Ok(false) => Stream::none(),
            Err(e) => Stream::broken(e),
        },
        Ast::Exists(e) => match walk(c, e, env, v).first() {
            Ok(o) => Stream::one(env, Value::Bool(o.is_some())),
            Err(x) => Stream::broken(x),
        },
        Ast::FieldSetEquals { base, fields, target } => {
            let t = match walk(c, target, env, v).first() {
                Ok(Some(t)) => t,
                Ok(None) => {
                    return Stream::one(env, Value::Bool(false));
                },
                Err(e) => {
                    return Stream::broken(e);
                },
            };
            match walk(c, base, env, v).first() {
                Ok(Some(Value::Node(id))) => {
                    let b = c.doc.node_kind(id) == NodeKind::Object && scan_field_set_equals(
                        c,
                        id,
                        fields,
                        &t,
                    );
                    Stream::one(env, Value::Bool(b))
                },
                Ok(_) => Stream::one(env, Value::Bool(false)),
                Err(e) => Stream::broken(e),
            }
        },
        Ast::TypeTest { value, kind, negated } => {
            let s = walk(c, value, env, v);
            test_types(c, env, s, *kind, *negated)
        },
        Ast::If { cond, then_branch, else_branch } => match walk(c, cond, env, v).any_true(c.doc) {
            Ok(true) => walk(c, then_branch, env, v),
            Ok(false) => walk(c, else_branch, env, v),
            Err(e) => Stream::broken(e),
        },
        _ => Stream::none(),
    }
}

/// What a pipe gives.
#[verifier::spinoff_prover]
pub proof fn run_of_pipe(c: CtxV, a: AstV, env: EnvV, v: ValueV)
    requires
        a is Pipe,
    ensures
        match a {
            AstV::Pipe(l, r) => run(c, a, env, v) == match (*l, *r) {
                (AstV::Pipe(source, mid), AstV::Limit(n)) => match *mid {
                    AstV::SortBy(keys) => sorted(
                        c,
                        keys,
                        Some(n as nat),
                        left(c, *source, env, v, None),
                        run(c, *source, env, v),
                    ),
                    _ => after(c, *r, stage_env(c, *l, *r, env, v), run(c, *l, env, v)),
                },
                _ => after(c, *r, stage_env(c, *l, *r, env, v), run(c, *l, env, v)),
            },
            _ => true,
        },
{
    reveal(run);
    reveal(after);
    reveal(sorted);
    reveal(left);
    reveal(stage_env);
}

/// The bindings of a stage.
pub proof fn env_of_stage(c: CtxV, l: AstV, r: AstV, env: EnvV, v: ValueV)
    ensures
        stage_env(c, l, r, env, v) == if reads_all(r) {
            left(c, l, env, v, None)
        } else {
            env
        },
{
    reveal(stage_env);
    reveal(left);
}

/// What a pipe leaves bound.
#[verifier::spinoff_prover]
pub proof fn left_of(c: CtxV, a: AstV, env: EnvV, v: ValueV, k: Option<nat>)
    ensures
        left(c, a, env, v, k) == match a {
            AstV::Pipe(l, r) => {
                let below = left(
                    c,
                    *l,
                    env,
                    v,
                    asked_for(c, *r, run(c, *l, env, v).rows, k),
                );
                match binds(*r) {
                    Some(name) => rebound(
                        below,
                        name,
                        run(c, a, env, v).rows,
                        taken(k, run(c, a, env, v).rows.len()),
                    ),
                    None => below,
                }
            },
            AstV::Tap(e) => left(c, *e, env, v, k),
            _ => match binds(a) {
                Some(name) => rebound(
                    env,
                    name,
                    run(c, a, env, v).rows,
                    taken(k, run(c, a, env, v).rows.len()),
                ),
                None => env,
            },
        },
{
    reveal(left);
    reveal(run);
    reveal(asked_for);
}

/// How many rows a stage asks for.
pub proof fn asked_of(c: CtxV, r: AstV, rows: Seq<RowV>, k: Option<nat>)
    ensures
        asked_for(c, r, rows, k) == match r {
            AstV::Sum => None,
            AstV::Min => None,
            AstV::Max => None,
            AstV::Avg => None,
            AstV::Count => None,
            AstV::By(_, _) => None,
            AstV::SortBy(_) => None,
            AstV::AggregateBlock { .. } => None,
            AstV::Limit(n) => pulled_limit(n as nat, k),
            AstV::Distinct => pulled_distinct(c, rows, 0, k),
            _ => pulled(c, r, rows, 0, k),
        },
{
    reveal(asked_for);
    reveal(pulled);
}

/// One step of what a stage pulls.
pub proof fn pulled_step(c: CtxV, r: AstV, rows: Seq<RowV>, i: nat, k: Option<nat>)
    ensures
        pulled(c, r, rows, i, k) == if k is None || i >= rows.len() {
            None
        } else {
            let t = run(c, r, rows[i as int].env, rows[i as int].value);
            if t.err is Some || less(k, t.rows.len()) == Some(0nat) {
                Some(i + 1)
            } else {
                pulled(c, r, rows, i + 1, less(k, t.rows.len()))
            }
        },
{
    reveal(pulled);
    reveal(run);
}

/// How many rows are asked for.
pub open spec fn wanted(k: Option<u128>) -> Option<nat> {
    match k {
        Some(n) => Some(n as nat),
        None => None,
    }
}

pub(crate) fn rest_of(k: Option<u128>, n: usize) -> (r: Option<u128>)
    ensures
        wanted(r) == less(wanted(k), n as nat),
{
    match k {
        Some(m) => Some(
            if m < n as u128 {
                0
            } else {
                m - n as u128
            },
        ),
        None => None,
    }
}

pub(crate) fn take_of(k: Option<u128>, n: usize) -> (r: usize)
    ensures
        r == taken(wanted(k), n as nat),
{
    match k {
        Some(m) => if m < n as u128 {
            m as usize
        } else {
            n
        },
        None => n,
    }
}

/// How many rows a stage takes to give `k`.
pub(crate) fn pull<N: Numbers>(c: &Ctx<N>, a: &Ast, rows: &Vec<Row>, k: Option<u128>) -> (r: Option<u128>)
    requires
        c.wf(),
    ensures
        wanted(r) == pulled(c@, a@, row_views(rows@), 0, wanted(k)),
    decreases a, 7nat,
{
    let mut left = k;
    let mut i: usize = 0;
    let ghost all = row_views(rows@);
    while i < rows.len()
        invariant
            c.wf(),
            all == row_views(rows@),
            i <= rows@.len(),
            (left is None) == (k is None),
            pulled(c@, a@, all, 0, wanted(k)) == pulled(c@, a@, all, i as nat, wanted(left)),
        decreases rows@.len() - i,
    {
        proof {
            pulled_step(c@, a@, all, i as nat, wanted(left));
        }
        if left.is_none() {
            return None;
        }
        assert(all[i as int] == rows@[i as int]@);
        let t = walk(c, a, &rows[i].env, &rows[i].value);
        left = rest_of(left, t.rows.len());
        assert(t@.rows.len() == t.rows@.len());
        if t.err.is_some() || left == Some(0u128) {
            return Some(i as u128 + 1);
        }
        i += 1;
    }
    proof {
        pulled_step(c@, a@, all, i as nat, wanted(left));
    }
    None
}

/// How many rows a stage asks of its source to give `k`.
#[verifier::spinoff_prover]
pub(crate) fn ask_for<N: Numbers>(c: &Ctx<N>, a: &Ast, rows: &Vec<Row>, k: Option<u128>) -> (r: Option<u128>)
    requires
        c.wf(),
    ensures
        wanted(r) == asked_for(c@, a@, row_views(rows@), wanted(k)),
    decreases a, 8nat,
{
    proof {
        asked_of(c@, a@, row_views(rows@), wanted(k));
    }
    match a {
        Ast::Sum
        | Ast::Min
        | Ast::Max
        | Ast::Avg
        | Ast::Count
        | Ast::By(_, _)
        | Ast::SortBy(_)
        | Ast::AggregateBlock { .. } => None,
        Ast::Limit(n) => {
            let n: u128 = *n as u128;
            match k {
                Some(m) => Some(
                    if m <= n {
                        m
                    } else {
                        n + 1
                    },
                ),
                None => Some(n + 1),
            }
        },
        Ast::Distinct => match k {
            Some(m) => match distinct_prefix(c, rows, m) {
                Some(n) => Some(n as u128),
                None => None,
            },
            None => None,
        },
        _ => pull(c, a, rows, k),
    }
}

pub(crate) fn is_reading(a: &Ast) -> (b: bool)
    ensures
        b == reads_all(a@),
{
    match a {
        Ast::Sum
        | Ast::Min
        | Ast::Max
        | Ast::Avg
        | Ast::Count
        | Ast::By(_, _)
        | Ast::SortBy(_)
        | Ast::AggregateBlock { .. } => true,
        _ => false,
    }
}

/// The name that a stage binds.
fn bound_name(a: &Ast) -> (r: Option<&str>)
    ensures
        match binds(a@) {
            Some(n) => r matches Some(s) && s@ == n,
            None => r is None,
        },
{
    match a {
        Ast::Let { name, .. } => Some(name.as_str()),
        Ast::JoinEach { alias, .. } => Some(alias.as_str()),
        Ast::UnnestEach { alias, .. } => Some(alias.as_str()),
        _ => None,
    }
}

/// Binds `name` as the last of the first rows has it.
fn rebind(env: Env, name: &str, rows: &Vec<Row>, n: usize) -> (e: Env)
    requires
        n <= rows@.len(),
    ensures
        e@ == rebound(env@, name@, row_views(rows@), n as nat),
{
    if n == 0 {
        return env;
    }
    assert(row_views(rows@)[n - 1] == rows@[n - 1]@);
    match rows[n - 1].env.get(name) {
        Some(x) => env.bind(name, x),
        None => env,
    }
}

/// The names that a tree leaves bound once `k` of its rows are taken, or all.
#[verifier::spinoff_prover]
pub fn leave<N: Numbers>(c: &Ctx<N>, a: &Ast, env: &Env, v: &Value, k: Option<u128>) -> (e: Env)
    requires
        c.wf(),
    ensures
        e@ == left(c@, a@, env@, v@, wanted(k)),
    decreases a, 6nat,
{
    proof {
        left_of(c@, a@, env@, v@, wanted(k));
    }
    match a {
        Ast::Pipe(l, r) => {
            assert(a@ == AstV::Pipe(Box::new(l@), Box::new(r@)));
            let ask = match k {
                None => {
                    let none: Vec<Row> = Vec::new();
                    proof {
                        asked_of(c@, r@, run(c@, l@, env@, v@).rows, None);
                        asked_of(c@, r@, row_views(none@), None);
                        pulled_step(c@, r@, run(c@, l@, env@, v@).rows, 0, None);
                        pulled_step(c@, r@, row_views(none@), 0, None);
                    }
                    ask_for(c, r, &none, None)
                },
                Some(_) => {
                    let s = walk(c, l, env, v);
                    ask_for(c, r, &s.rows, k)
                },
            };
            let below = leave(c, l, env, v, ask);
            match bound_name(r) {
                Some(name) => {
                    let t = walk(c, a, env, v);
                    let n = take_of(k, t.rows.len());
                    assert(t@.rows.len() == t.rows@.len());
                    rebind(below, name, &t.rows, n)
                },
                None => below,
            }
        },
        Ast::Tap(e) => leave(c, e, env, v, k),
        _ => match bound_name(a) {
            Some(name) => {
                let t = walk(c, a, env, v);
                let n = take_of(k, t.rows.len());
                assert(t@.rows.len() == t.rows@.len());
                rebind(env.copy(), name, &t.rows, n)
            },
            None => env.copy(),
        },
    }
}

/// What arithmetic gives.
#[verifier::spinoff_prover]
proof fn run_of_arith(c: CtxV, a: AstV, env: EnvV, v: ValueV)
    ensures
        match a {
            AstV::Binary { op, lhs, rhs } => run(c, a, env, v) == match first(
                run(c, *lhs, env, v),
            ) {
                Err(e) => broken(e),
                Ok(x) => match first(run(c, *rhs, env, v)) {
                    Err(e) => broken(e),
                    Ok(y) => one(
                        env,
                        computed(c, binary_num(op), number_opt(c, x), number_opt(c, y)),
                    ),
                },
            },
            AstV::Neg(e) => run(c, a, env, v) == match first(run(c, *e, env, v)) {
                Err(x) => broken(x),
                Ok(o) => one(
                    env,
                    match number_opt(c, o) {
                        Some(n) => ValueV::Number((c.n.apply)(NumOp::Neg, n, 0)),
                        None => ValueV::Null,
                    },
                ),
            },
            AstV::Round { value, precision } => run(c, a, env, v) == match first(
                run(c, *value, env, v),
            ) {
                Err(e) => broken(e),
                Ok(x) => match precision {
                    None => one(
                        env,
                        computed(
                            c,
                            NumOp::Round,
                            number_opt(c, x),
                            Some((c.n.apply)(NumOp::OfInt, 0, 0)),
                        ),
                    ),
                    Some(p) => match first(run(c, *p, env, v)) {
                        Err(e) => broken(e),
                        Ok(y) => one(
                            env,
                            computed(c, NumOp::Round, number_opt(c, x), number_opt(c, y)),
                        ),
                    },
                },
            },
            _ => true,
        },
{
    reveal(run);
}

/// Arithmetic.
#[verifier::spinoff_prover]
fn walk_arith<N: Numbers>(c: &Ctx<N>, a: &Ast, env: &Env, v: &Value) -> (s: Stream)
    requires
        c.wf(),
        a is Binary
            || a is Neg
            || a is Round,
    ensures
        s@ == run(c@, a@, env@, v@),
    decreases a, 0nat,
{
    proof {
        run_of_arith(c@, a@, env@, v@);
    }
    match a {
        Ast::Binary { op, lhs, rhs } => {
            assert(a@ == (AstV::Binary { op: *op, lhs: Box::new(lhs@), rhs: Box::new(rhs@) }));
            let x = match walk(c, lhs, env, v).first() {
                Ok(x) => x,
                Err(e) => {
                    return Stream::broken(e);
                },
            };
            match walk(c, rhs, env, v).first() {
                Ok(y) => {
                    let r = compute(c, num_op(*op), opt_number(c, &x), opt_number(c, &y));
                    Stream::one(env, r)
                },
                Err(e) => Stream::broken(e),
            }
        },
        Ast::Neg(e) => match walk(c, e, env, v).first() {
            Ok(o) => {
                let r = match opt_number(c, &o) {
                    Some(n) => Value::Number(c.num.arith(NumOp::Neg, n, 0)),
                    None => Value::Null,
                };
                Stream::one(env, r)
            },
            Err(x) => Stream::broken(x),
        },
        Ast::Round { value, precision } => {
            assert(a@ == (AstV::Round { value: Box::new(value@), precision: opt_view(*precision) }));
            let x = match walk(c, value, env, v).first() {
                Ok(x) => x,
                Err(e) => {
                    return Stream::broken(e);
                },
            };
            match precision {
                None => {
                    let p = c.num.arith(NumOp::OfInt, 0, 0);
                    Stream::one(env, compute(c, NumOp::Round, opt_number(c, &x), Some(p)))
                },
                Some(p) => match walk(c, p, env, v).first() {
                    Ok(y) => Stream::one(
                        env,
                        compute(c, NumOp::Round, opt_number(c, &x), opt_number(c, &y)),
                    ),
                    Err(e) => Stream::broken(e),
                },
            }
        },
        _ => Stream::none(),
    }
}

/// Stages that make a value of the first values of their parts.
#[verifier::spinoff_prover]
fn walk_build<N: Numbers>(c: &Ctx<N>, a: &Ast, env: &Env, v: &Value) -> (s: Stream)
    requires
        c.wf(),
        a is KeyTuple
            || a is Project
            || a is Object
            || a is ArrayLit
            || a is Call,
    ensures
        s@ == run(c@, a@, env@, v@),
    decreases a, 0nat,
{
    proof {
        reveal(run);
        reveal(firsts);
        reveal(named_firsts);
    }
    match a {
        Ast::KeyTuple(parts) => match walk_firsts(c, parts, env, v) {
            Ok(x) => Stream::one(env, Value::Str(join_key(c, &x))),
            Err(e) => Stream::broken(e),
        },
        Ast::Project(fields) => match walk_named(c, fields, env, v) {
            Ok(x) => Stream::one(env, make_object(fields, x)),
            Err(e) => Stream::broken(e),
        },
        Ast::Object(fields) => match walk_named(c, fields, env, v) {
            Ok(x) => Stream::one(env, make_object(fields, x)),
            Err(e) => Stream::broken(e),
        },
        Ast::ArrayLit(items) => match walk_firsts(c, items, env, v) {
            Ok(x) => Stream::one(env, make_array(x)),
            Err(e) => Stream::broken(e),
        },
        Ast::Call { name, args } => match walk_firsts(c, args, env, v) {
            Ok(x) => Stream::one(env, call(c, name.as_str(), &x)),
            Err(e) => Stream::broken(e),
        },
        _ => Stream::none(),
    }
}

/// A stage after another.
#[verifier::spinoff_prover]
fn walk_pipe<N: Numbers>(c: &Ctx<N>, a: &Ast, env: &Env, v: &Value) -> (s: Stream)
    requires
        c.wf(),
        a is Pipe,
    ensures
        s@ == run(c@, a@, env@, v@),
    decreases a, 0nat,
{
    proof {
        run_of_pipe(c@, a@, env@, v@);
    }
    match a {
        Ast::Pipe(l, r) => {
            assert(a@ == AstV::Pipe(Box::new(l@), Box::new(r@)));
            assert(r@ matches AstV::Limit(n) ==> **r == Ast::Limit(n));
            assert(l@ is Pipe ==> **l is Pipe);
            if let Ast::Limit(n) = &**r {
                if let Ast::Pipe(source, mid) = &**l {
                    if let Ast::SortBy(keys) = &**mid {
                        proof {
                            assert(l@ == AstV::Pipe(Box::new(source@), Box::new(mid@)));
                            assert(mid@ == AstV::SortBy(key_views(keys@)));
                            assert(r@ == AstV::Limit(*n));
                        }
                        let s = walk(c, source, env, v);
                        let bound = leave(c, source, env, v, None);
                        return walk_sorted(c, keys, Some(*n), &bound, s);
                    }
                }
            }
            proof {
                if **l is Pipe {
                    let source = *l->Pipe_0;
                    let mid = *l->Pipe_1;
                    assert(l@ == AstV::Pipe(Box::new(source@), Box::new(mid@)));
                    assert(mid@ is SortBy ==> mid is SortBy);
                }
            }
            let s = walk(c, l, env, v);
            proof {
                env_of_stage(c@, l@, r@, env@, v@);
            }
            if is_reading(r) {
                let bound = leave(c, l, env, v, None);
                walk_after(c, r, &bound, s)
            } else {
                walk_after(c, r, env, s)
            }
        },
        _ => Stream::none(),
    }
}

/// Stages that bind names or run others.
#[verifier::spinoff_prover]
fn walk_source<N: Numbers>(c: &Ctx<N>, a: &Ast, env: &Env, v: &Value) -> (s: Stream)
    requires
        c.wf(),
        a is Let
            || a is JoinEach
            || a is UnnestEach
            || a is Subquery
            || a is Tap,
    ensures
        s@ == run(c@, a@, env@, v@),
    decreases a, 0nat,
{
    proof {
        reveal(run);
        reveal(each);
    }
    match a {
        Ast::Let { name, value } => match walk(c, value, env, v).first() {
            Ok(o) => Stream::one(&env.bind(name.as_str(), value_or_null(o)), v.copy()),
            Err(e) => Stream::broken(e),
        },
        Ast::JoinEach { alias, outer_key, lookup, inner } => {
            let keys = walk(c, outer_key, env, v);
            let found = walk_each(c, lookup, &keys.rows);
            join_rows(env, alias.as_str(), *inner, v, follow(found, keys.err))
        },
        Ast::UnnestEach { alias, source } => match walk(c, source, env, v).first() {
            Ok(o) => {
                let items = elements(c, &o);
                Stream { rows: bind_rows(env, alias.as_str(), &items, v), err: None }
            },
            Err(e) => Stream::broken(e),
        },
        Ast::Subquery { pipeline } => walk(c, pipeline, env, &Value::Node(c.root)),
        Ast::Tap(e) => walk(c, e, env, v),
        _ => Stream::none(),
    }
}

/// What a query tree gives on a value.
#[verifier::spinoff_prover]
pub fn walk<N: Numbers>(c: &Ctx<N>, a: &Ast, env: &Env, v: &Value) -> (s: Stream)
    requires
        c.wf(),
    ensures
        s@ == run(c@, a@, env@, v@),
    decreases a, 1nat,
{
    proof {
        reveal(run);
    }
    match a {
        Ast::Identity => Stream::one(env, v.copy()),
        Ast::Field(n) => Stream::opt(env, field(c, n.as_str(), v)),
        Ast::Index(i) => Stream::opt(env, element(c, *i, v)),
        Ast::Iterate => Stream::all_of(env, kids(c, v)),
        Ast::Descend => Stream::all_of(env, below(c, v)),
        Ast::DescendField(n) => Stream::all_of(env, below_fields(c, n.as_str(), v)),
        Ast::IterateField(n) => Stream::all_of(env, fields_of_kids(c, n.as_str(), v)),
        Ast::LitNumber(t) => Stream::one(env, number_literal(c, t.as_str())),
        Ast::LitString(t) => Stream::one(env, Value::Str(t.clone())),
        Ast::LitBool(b) => Stream::one(env, Value::Bool(*b)),
        Ast::LitNull => Stream::one(env, Value::Null),
        Ast::Not => Stream::one(env, Value::Bool(!v.is_truthy(c.doc))),
        Ast::Sum => Stream::one(env, v.copy()),
        Ast::Min => Stream::one(env, v.copy()),
        Ast::Max => Stream::one(env, v.copy()),
        Ast::Avg => Stream::one(env, v.copy()),
        Ast::Count => Stream::one(env, v.copy()),
        Ast::By(_, _) => Stream::one(env, v.copy()),
        Ast::SortBy(_) => Stream::one(env, v.copy()),
        Ast::Limit(_) => Stream::one(env, v.copy()),
        Ast::Distinct => Stream::one(env, v.copy()),
        Ast::AggregateBlock { .. } => Stream::one(env, v.copy()),
        Ast::Lookup { source_canon, key_canon, .. } => run_lookup(
            c,
            source_canon.as_str(),
            key_canon.as_str(),
            env,
            v,
        ),
        Ast::Var(n) => Stream::opt(env, env.get(n.as_str())),
        Ast::ReducerSlot(i) => match env.slot(*i) {
            Some(x) => Stream::one(env, Value::Number(x)),
            None => Stream::one(env, Value::Null),
        },
        Ast::Compare(..)
        | Ast::And(..)
        | Ast::Or(..)
        | Ast::Select(..)
        | Ast::Exists(..)
        | Ast::FieldSetEquals { .. }
        | Ast::TypeTest { .. }
        | Ast::If { .. } => walk_test(c, a, env, v),
        Ast::Binary { .. }
        | Ast::Neg(..)
        | Ast::Round { .. } => walk_arith(c, a, env, v),
        Ast::KeyTuple(..)
        | Ast::Project(..)
        | Ast::Object(..)
        | Ast::ArrayLit(..)
        | Ast::Call { .. } => walk_build(c, a, env, v),
        Ast::Pipe(..) => walk_pipe(c, a, env, v),
        Ast::Let { .. }
        | Ast::JoinEach { .. }
        | Ast::UnnestEach { .. }
        | Ast::Subquery { .. }
        | Ast::Tap(..) => walk_source(c, a, env, v),
    }
}

} // verus!
