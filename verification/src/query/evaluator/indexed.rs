//! A query that has the index of each of its lookups runs into no error.
use vstd::prelude::*;

use super::super::ast::{AggGroupKeyV, AggGroupV, AggOutputV, AggReductionV, AstV, SortDir};
use super::super::surface::clauses::columns_are_parts;
use super::super::value::ValueV;
use super::aggregating::{bucket_rows_step, plain_table, roll_table, sees, single_table};
use super::joining::firsts_are_parts;
use super::lookups::{
    lookups, lookups_each, lookups_group, lookups_keys, lookups_named, lookups_opt, lookups_output,
    lookups_outputs, lookups_reduction, lookups_reductions, lookups_sort,
};
use super::model::{ops_of, BucketV, CtxV, EnvV, KeyedV, Missing, RowV, StreamV};
use super::queries::name_of;
use super::reaching::each_step;
use super::semantics::{
    after, agg_rows, agg_table, bucket_rows, by_row, by_table, each, firsts, left, named_firsts,
    output, output_rows, outputs, run, sort_table, sorted, stage_env,
};
use super::sorting::{keys_sound, table_holds_keys};
use super::walk::run_of_pipe;

verus! {

/// Each of these lookups has its index.
pub open spec fn covered(c: CtxV, l: Seq<AstV>) -> bool {
    forall|i: int|
        0 <= i < l.len() && (#[trigger] l[i]) is Lookup ==> c.indexes.has(name_of(l[i]))
}

proof fn covers_both(c: CtxV, a: Seq<AstV>, b: Seq<AstV>)
    requires
        covered(c, a + b),
    ensures
        covered(c, a),
        covered(c, b),
{
    let l = a + b;
    assert forall|i: int| 0 <= i < a.len() && (#[trigger] a[i]) is Lookup implies c.indexes.has(
        name_of(a[i]),
    ) by {
        assert(l[i] == a[i]);
    }
    assert forall|i: int| 0 <= i < b.len() && (#[trigger] b[i]) is Lookup implies c.indexes.has(
        name_of(b[i]),
    ) by {
        assert(l[a.len() + i] == b[i]);
    }
}

proof fn covers_three(c: CtxV, a: Seq<AstV>, b: Seq<AstV>, d: Seq<AstV>)
    requires
        covered(c, a + b + d),
    ensures
        covered(c, a),
        covered(c, b),
        covered(c, d),
{
    covers_both(c, a + b, d);
    covers_both(c, a, b);
}

#[verifier::spinoff_prover]
proof fn covers_each(c: CtxV, v: Seq<AstV>, i: int)
    requires
        covered(c, lookups_each(v)),
        0 <= i < v.len(),
    ensures
        covered(c, lookups(v[i])),
    decreases v.len(),
{
    let less = v.drop_last();
    assert(lookups_each(v) == lookups_each(less) + lookups(v.last())) by {
        reveal_with_fuel(lookups_each, 2);
        reveal(lookups);
    }
    covers_both(c, lookups_each(less), lookups(v.last()));
    if i < less.len() {
        covers_each(c, less, i);
    }
}

#[verifier::spinoff_prover]
proof fn covers_named(c: CtxV, v: Seq<(Seq<char>, AstV)>, i: int)
    requires
        covered(c, lookups_named(v)),
        0 <= i < v.len(),
    ensures
        covered(c, lookups(v[i].1)),
    decreases v.len(),
{
    let less = v.drop_last();
    assert(lookups_named(v) == lookups_named(less) + lookups(v.last().1)) by {
        reveal_with_fuel(lookups_named, 2);
        reveal(lookups);
    }
    covers_both(c, lookups_named(less), lookups(v.last().1));
    if i < less.len() {
        covers_named(c, less, i);
    }
}

#[verifier::spinoff_prover]
proof fn covers_sort(c: CtxV, v: Seq<(AstV, SortDir)>, i: int)
    requires
        covered(c, lookups_sort(v)),
        0 <= i < v.len(),
    ensures
        covered(c, lookups(v[i].0)),
    decreases v.len(),
{
    let less = v.drop_last();
    assert(lookups_sort(v) == lookups_sort(less) + lookups(v.last().0)) by {
        reveal_with_fuel(lookups_sort, 2);
        reveal(lookups);
    }
    covers_both(c, lookups_sort(less), lookups(v.last().0));
    if i < less.len() {
        covers_sort(c, less, i);
    }
}

#[verifier::spinoff_prover]
proof fn covers_keys(c: CtxV, v: Seq<AggGroupKeyV>, i: int)
    requires
        covered(c, lookups_keys(v)),
        0 <= i < v.len(),
    ensures
        covered(c, lookups(*v[i].key)),
    decreases v.len(),
{
    let less = v.drop_last();
    assert(lookups_keys(v) == lookups_keys(less) + lookups(*v.last().key)) by {
        reveal_with_fuel(lookups_keys, 2);
        reveal(lookups);
    }
    covers_both(c, lookups_keys(less), lookups(*v.last().key));
    if i < less.len() {
        covers_keys(c, less, i);
    }
}

#[verifier::spinoff_prover]
proof fn covers_reductions(c: CtxV, v: Seq<AggReductionV>, i: int)
    requires
        covered(c, lookups_reductions(v)),
        0 <= i < v.len(),
    ensures
        covered(c, lookups_opt(v[i].value)),
        covered(c, lookups_opt(v[i].where_pred)),
    decreases v.len(),
{
    let less = v.drop_last();
    assert(lookups_reductions(v) == lookups_reductions(less) + lookups_reduction(v.last())) by {
        reveal_with_fuel(lookups_reductions, 2);
        reveal(lookups_reduction);
    }
    covers_both(c, lookups_reductions(less), lookups_reduction(v.last()));
    if i < less.len() {
        covers_reductions(c, less, i);
    } else {
        assert(lookups_reduction(v.last()) == lookups_opt(v.last().value) + lookups_opt(
            v.last().where_pred,
        )) by {
            reveal(lookups_reduction);
            reveal(lookups_opt);
        }
        covers_both(c, lookups_opt(v.last().value), lookups_opt(v.last().where_pred));
    }
}

#[verifier::spinoff_prover]
proof fn covers_opt(c: CtxV, o: Option<Box<AstV>>)
    requires
        covered(c, lookups_opt(o)),
    ensures
        o matches Some(a) ==> covered(c, lookups(*a)),
{
    reveal(lookups_opt);
    reveal(lookups);
}

/// The lookups of the parts of a tree.
#[verifier::spinoff_prover]
#[verifier::rlimit(40)]
proof fn covers_parts(c: CtxV, a: AstV)
    requires
        covered(c, lookups(a)),
    ensures
        match a {
            AstV::Lookup { .. } => c.indexes.has(name_of(a)),
            AstV::JoinEach { outer_key, lookup, .. } => covered(c, lookups(*outer_key)) && covered(
                c,
                lookups(*lookup),
            ),
            AstV::UnnestEach { source, .. } => covered(c, lookups(*source)),
            AstV::Subquery { pipeline } => covered(c, lookups(*pipeline)),
            AstV::Pipe(l, r) => covered(c, lookups(*l)) && covered(c, lookups(*r)),
            AstV::And(l, r) => covered(c, lookups(*l)) && covered(c, lookups(*r)),
            AstV::Or(l, r) => covered(c, lookups(*l)) && covered(c, lookups(*r)),
            AstV::Compare(l, _, r) => covered(c, lookups(*l)) && covered(c, lookups(*r)),
            AstV::By(l, r) => covered(c, lookups(*l)) && covered(c, lookups(*r)),
            AstV::Select(e) => covered(c, lookups(*e)),
            AstV::Exists(e) => covered(c, lookups(*e)),
            AstV::Tap(e) => covered(c, lookups(*e)),
            AstV::Let { value, .. } => covered(c, lookups(*value)),
            AstV::FieldSetEquals { base, target, .. } => covered(c, lookups(*base)) && covered(
                c,
                lookups(*target),
            ),
            AstV::Project(f) => covered(c, lookups_named(f)),
            AstV::Object(f) => covered(c, lookups_named(f)),
            AstV::SortBy(k) => covered(c, lookups_sort(k)),
            AstV::KeyTuple(v) => covered(c, lookups_each(v)),
            AstV::ArrayLit(v) => covered(c, lookups_each(v)),
            AstV::Call { args, .. } => covered(c, lookups_each(args)),
            AstV::AggregateBlock { group, reductions, outputs } => covered(c, lookups_group(group))
                && covered(c, lookups_reductions(reductions)) && covered(
                c,
                lookups_outputs(outputs),
            ),
            AstV::Binary { lhs, rhs, .. } => covered(c, lookups(*lhs)) && covered(
                c,
                lookups(*rhs),
            ),
            AstV::Neg(e) => covered(c, lookups(*e)),
            AstV::TypeTest { value, .. } => covered(c, lookups(*value)),
            AstV::Round { value, precision } => covered(c, lookups(*value)) && covered(
                c,
                lookups_opt(precision),
            ),
            AstV::If { cond, then_branch, else_branch } => covered(c, lookups(*cond)) && covered(
                c,
                lookups(*then_branch),
            ) && covered(c, lookups(*else_branch)),
            _ => true,
        },
{
    reveal_with_fuel(lookups, 2);
    reveal(lookups_named);
    reveal(lookups_sort);
    reveal(lookups_each);
    reveal(lookups_group);
    reveal(lookups_reductions);
    reveal(lookups_outputs);
    reveal(lookups_opt);
    match a {
        AstV::Lookup { source, key, .. } => {
            covers_three(c, seq![a], lookups(*source), lookups(*key));
            assert(seq![a][0] is Lookup);
            assert(c.indexes.has(name_of(seq![a][0])));
        },
        AstV::JoinEach { outer_key, lookup, .. } => {
            covers_both(c, lookups(*outer_key), lookups(*lookup));
        },
        AstV::Pipe(l, r) => {
            covers_both(c, lookups(*l), lookups(*r));
        },
        AstV::And(l, r) => {
            covers_both(c, lookups(*l), lookups(*r));
        },
        AstV::Or(l, r) => {
            covers_both(c, lookups(*l), lookups(*r));
        },
        AstV::Compare(l, _, r) => {
            covers_both(c, lookups(*l), lookups(*r));
        },
        AstV::By(l, r) => {
            covers_both(c, lookups(*l), lookups(*r));
        },
        AstV::FieldSetEquals { base, target, .. } => {
            covers_both(c, lookups(*base), lookups(*target));
        },
        AstV::AggregateBlock { group, reductions, outputs } => {
            covers_three(
                c,
                lookups_group(group),
                lookups_reductions(reductions),
                lookups_outputs(outputs),
            );
        },
        AstV::Binary { lhs, rhs, .. } => {
            covers_both(c, lookups(*lhs), lookups(*rhs));
        },
        AstV::Round { value, precision } => {
            covers_both(c, lookups(*value), lookups_opt(precision));
        },
        AstV::If { cond, then_branch, else_branch } => {
            covers_three(c, lookups(*cond), lookups(*then_branch), lookups(*else_branch));
        },
        _ => {},
    }
}

/// A tree that has the index of each of its lookups runs into no error, on any
/// row and with any names bound.
#[verifier::spinoff_prover]
#[verifier::rlimit(60)]
pub proof fn indexed_queries_run_through(c: CtxV, a: AstV, env: EnvV, v: ValueV)
    requires
        covered(c, lookups(a)),
    ensures
        run(c, a, env, v).err is None,
    decreases a, 0nat,
{
    covers_parts(c, a);
    match a {
        AstV::Pipe(l, r) => {
            indexed_queries_run_through(c, *l, env, v);
            run_of_pipe(c, a, env, v);
            let s = run(c, *l, env, v);
            let e = stage_env(c, *l, *r, env, v);
            stage_runs_through(c, *r, e, s);
            if let AstV::Pipe(source, mid) = *l {
                covers_parts(c, *l);
                indexed_queries_run_through(c, *source, env, v);
                if let AstV::SortBy(keys) = *mid {
                    covers_parts(c, *mid);
                    if let AstV::Limit(n) = *r {
                        sort_runs_through(
                            c,
                            keys,
                            Some(n as nat),
                            left(c, *source, env, v, None),
                            run(c, *source, env, v),
                        );
                    }
                }
            }
        },
        AstV::Compare(l, _, r) => {
            indexed_queries_run_through(c, *l, env, v);
            indexed_queries_run_through(c, *r, env, v);
            two_run_through(c, a, env, v);
        },
        AstV::And(l, r) => {
            indexed_queries_run_through(c, *l, env, v);
            indexed_queries_run_through(c, *r, env, v);
            two_run_through(c, a, env, v);
        },
        AstV::Or(l, r) => {
            indexed_queries_run_through(c, *l, env, v);
            indexed_queries_run_through(c, *r, env, v);
            two_run_through(c, a, env, v);
        },
        AstV::Binary { lhs, rhs, .. } => {
            indexed_queries_run_through(c, *lhs, env, v);
            indexed_queries_run_through(c, *rhs, env, v);
            two_run_through(c, a, env, v);
        },
        AstV::FieldSetEquals { base, target, .. } => {
            indexed_queries_run_through(c, *base, env, v);
            indexed_queries_run_through(c, *target, env, v);
            two_run_through(c, a, env, v);
        },
        AstV::If { cond, then_branch, else_branch } => {
            indexed_queries_run_through(c, *cond, env, v);
            indexed_queries_run_through(c, *then_branch, env, v);
            indexed_queries_run_through(c, *else_branch, env, v);
            two_run_through(c, a, env, v);
        },
        AstV::Round { value, precision } => {
            covers_opt(c, precision);
            indexed_queries_run_through(c, *value, env, v);
            if let Some(p) = precision {
                indexed_queries_run_through(c, *p, env, v);
            }
            two_run_through(c, a, env, v);
        },
        AstV::Select(e) => {
            indexed_queries_run_through(c, *e, env, v);
            one_runs_through(c, a, env, v);
        },
        AstV::Exists(e) => {
            indexed_queries_run_through(c, *e, env, v);
            one_runs_through(c, a, env, v);
        },
        AstV::Tap(e) => {
            indexed_queries_run_through(c, *e, env, v);
            one_runs_through(c, a, env, v);
        },
        AstV::Let { value, .. } => {
            indexed_queries_run_through(c, *value, env, v);
            one_runs_through(c, a, env, v);
        },
        AstV::Neg(e) => {
            indexed_queries_run_through(c, *e, env, v);
            one_runs_through(c, a, env, v);
        },
        AstV::TypeTest { value, .. } => {
            indexed_queries_run_through(c, *value, env, v);
            one_runs_through(c, a, env, v);
        },
        AstV::UnnestEach { source, .. } => {
            indexed_queries_run_through(c, *source, env, v);
            one_runs_through(c, a, env, v);
        },
        AstV::Subquery { pipeline } => {
            indexed_queries_run_through(c, *pipeline, env, ValueV::Node(c.root));
            one_runs_through(c, a, env, v);
        },
        AstV::JoinEach { outer_key, lookup, .. } => {
            indexed_queries_run_through(c, *outer_key, env, v);
            rows_run_through(c, *lookup, run(c, *outer_key, env, v).rows);
            join_runs_through(c, a, env, v);
        },
        AstV::KeyTuple(es) => {
            assert(decreases_to!(a => es));
            list_runs_through(c, es, env, v);
            lists_run_through(c, a, env, v);
        },
        AstV::ArrayLit(es) => {
            assert(decreases_to!(a => es));
            list_runs_through(c, es, env, v);
            lists_run_through(c, a, env, v);
        },
        AstV::Call { args, .. } => {
            assert(decreases_to!(a => args));
            list_runs_through(c, args, env, v);
            lists_run_through(c, a, env, v);
        },
        AstV::Project(f) => {
            assert(decreases_to!(a => f));
            named_run_through(c, f, env, v);
            lists_run_through(c, a, env, v);
        },
        AstV::Object(f) => {
            assert(decreases_to!(a => f));
            named_run_through(c, f, env, v);
            lists_run_through(c, a, env, v);
        },
        _ => {
            leaf_runs_through(c, a, env, v);
        },
    }
}

#[verifier::spinoff_prover]
proof fn leaf_runs_through(c: CtxV, a: AstV, env: EnvV, v: ValueV)
    requires
        a is Lookup ==> c.indexes.has(name_of(a)),
        !(a is Pipe || a is Compare || a is And || a is Or || a is Binary || a is FieldSetEquals
            || a is If || a is Round || a is Select || a is Exists || a is Tap || a is Let || a
            is Neg || a is TypeTest || a is UnnestEach || a is Subquery || a is JoinEach || a
            is KeyTuple || a is ArrayLit || a is Call || a is Project || a is Object),
    ensures
        run(c, a, env, v).err is None,
{
    reveal(run);
}

#[verifier::spinoff_prover]
proof fn one_runs_through(c: CtxV, a: AstV, env: EnvV, v: ValueV)
    requires
        match a {
            AstV::Select(e) => run(c, *e, env, v).err is None,
            AstV::Exists(e) => run(c, *e, env, v).err is None,
            AstV::Tap(e) => run(c, *e, env, v).err is None,
            AstV::Let { value, .. } => run(c, *value, env, v).err is None,
            AstV::Neg(e) => run(c, *e, env, v).err is None,
            AstV::TypeTest { value, .. } => run(c, *value, env, v).err is None,
            AstV::UnnestEach { source, .. } => run(c, *source, env, v).err is None,
            AstV::Subquery { pipeline } => run(
                c,
                *pipeline,
                env,
                ValueV::Node(c.root),
            ).err is None,
            _ => false,
        },
    ensures
        run(c, a, env, v).err is None,
{
    reveal(run);
}

#[verifier::spinoff_prover]
proof fn two_run_through(c: CtxV, a: AstV, env: EnvV, v: ValueV)
    requires
        match a {
            AstV::Compare(l, _, r) => run(c, *l, env, v).err is None && run(
                c,
                *r,
                env,
                v,
            ).err is None,
            AstV::And(l, r) => run(c, *l, env, v).err is None && run(c, *r, env, v).err is None,
            AstV::Or(l, r) => run(c, *l, env, v).err is None && run(c, *r, env, v).err is None,
            AstV::Binary { lhs, rhs, .. } => run(c, *lhs, env, v).err is None && run(
                c,
                *rhs,
                env,
                v,
            ).err is None,
            AstV::FieldSetEquals { base, target, .. } => run(c, *base, env, v).err is None && run(
                c,
                *target,
                env,
                v,
            ).err is None,
            AstV::If { cond, then_branch, else_branch } => run(c, *cond, env, v).err is None && run(
                c,
                *then_branch,
                env,
                v,
            ).err is None && run(c, *else_branch, env, v).err is None,
            AstV::Round { value, precision } => run(c, *value, env, v).err is None && (
            precision matches Some(p) ==> run(c, *p, env, v).err is None),
            _ => false,
        },
    ensures
        run(c, a, env, v).err is None,
{
    reveal(run);
}

#[verifier::spinoff_prover]
proof fn join_runs_through(c: CtxV, a: AstV, env: EnvV, v: ValueV)
    requires
        match a {
            AstV::JoinEach { outer_key, lookup, .. } => run(c, *outer_key, env, v).err is None
                && each(c, *lookup, run(c, *outer_key, env, v).rows).err is None,
            _ => false,
        },
    ensures
        run(c, a, env, v).err is None,
{
    reveal(run);
    reveal(each);
}

#[verifier::spinoff_prover]
proof fn lists_run_through(c: CtxV, a: AstV, env: EnvV, v: ValueV)
    requires
        match a {
            AstV::KeyTuple(es) => firsts(c, es, env, v) is Ok,
            AstV::ArrayLit(es) => firsts(c, es, env, v) is Ok,
            AstV::Call { args, .. } => firsts(c, args, env, v) is Ok,
            AstV::Project(f) => named_firsts(c, f, env, v) is Ok,
            AstV::Object(f) => named_firsts(c, f, env, v) is Ok,
            _ => false,
        },
    ensures
        run(c, a, env, v).err is None,
{
    reveal(run);
    reveal(firsts);
    reveal(named_firsts);
}

proof fn list_runs_through(c: CtxV, es: Seq<AstV>, env: EnvV, v: ValueV)
    requires
        covered(c, lookups_each(es)),
    ensures
        firsts(c, es, env, v) is Ok,
    decreases es, 1nat,
{
    assert forall|i: int| 0 <= i < es.len() implies run(c, #[trigger] es[i], env, v).err is None by {
        covers_each(c, es, i);
        assert(decreases_to!(es => es[i]));
        indexed_queries_run_through(c, es[i], env, v);
    }
    firsts_are_parts(c, es, env, v);
}

proof fn named_run_through(c: CtxV, f: Seq<(Seq<char>, AstV)>, env: EnvV, v: ValueV)
    requires
        covered(c, lookups_named(f)),
    ensures
        named_firsts(c, f, env, v) is Ok,
    decreases f, 1nat,
{
    let row = RowV { env, value: v };
    assert forall|i: int| 0 <= i < f.len() implies run(
        c,
        (#[trigger] f[i]).1,
        row.env,
        row.value,
    ).err is None by {
        covers_named(c, f, i);
        assert(decreases_to!(f => f[i]));
        assert(decreases_to!(f[i] => f[i].1));
        indexed_queries_run_through(c, f[i].1, env, v);
    }
    columns_are_parts(c, f, row);
}

proof fn rows_run_through(c: CtxV, r: AstV, rows: Seq<RowV>)
    requires
        covered(c, lookups(r)),
    ensures
        each(c, r, rows).err is None,
    decreases r, rows.len() + 1,
{
    each_step(c, r, rows);
    if rows.len() > 0 {
        rows_run_through(c, r, rows.drop_last());
        indexed_queries_run_through(c, r, rows.last().env, rows.last().value);
    }
}

#[verifier::spinoff_prover]
proof fn sort_runs_through(
    c: CtxV,
    keys: Seq<(AstV, SortDir)>,
    limit: Option<nat>,
    env: EnvV,
    s: StreamV,
)
    requires
        covered(c, lookups_sort(keys)),
        s.err is None,
    ensures
        sorted(c, keys, limit, env, s).err is None,
    decreases keys, 1nat,
{
    assert forall|r: int| 0 <= r < s.rows.len() implies keys_sound(c, keys, #[trigger] s.rows[r]) by {
        let row = s.rows[r];
        assert forall|j: int| 0 <= j < keys.len() implies run(
            c,
            (#[trigger] keys[j]).0,
            row.env,
            row.value,
        ).err is None by {
            covers_sort(c, keys, j);
            assert(decreases_to!(keys => keys[j]));
            assert(decreases_to!(keys[j] => keys[j].0));
            indexed_queries_run_through(c, keys[j].0, row.env, row.value);
        }
    }
    table_holds_keys(c, keys, s.rows);
    reveal(sorted);
    reveal(sort_table);
}

/// A stage behind a stream without an error.
#[verifier::spinoff_prover]
#[verifier::rlimit(60)]
proof fn stage_runs_through(c: CtxV, r: AstV, env: EnvV, s: StreamV)
    requires
        covered(c, lookups(r)),
        s.err is None,
    ensures
        after(c, r, env, s).err is None,
    decreases r, s.rows.len() + 3,
{
    covers_parts(c, r);
    match r {
        AstV::SortBy(keys) => {
            assert(decreases_to!(r => keys));
            sort_runs_through(c, keys, None, env, s);
            reveal(after);
            reveal(sorted);
        },
        AstV::By(_, _) => {
            by_runs_through(c, r, s.rows);
            reveal(after);
            reveal(by_table);
        },
        AstV::AggregateBlock { group, reductions, outputs } => {
            block_runs_through(c, r, env, s);
        },
        _ => {
            rows_run_through(c, r, s.rows);
            reveal(after);
            reveal(each);
        },
    }
}

#[verifier::spinoff_prover]
proof fn by_row_runs_through(c: CtxV, r: AstV, row: RowV)
    requires
        covered(c, lookups(r)),
        r is By,
    ensures
        by_row(c, r, row) is Ok,
    decreases r, 1nat,
{
    covers_parts(c, r);
    if let AstV::By(e, k) = r {
        indexed_queries_run_through(c, *k, row.env, row.value);
        indexed_queries_run_through(c, *e, row.env, row.value);
        if let AstV::Pipe(l, last) = *e {
            covers_parts(c, *e);
            indexed_queries_run_through(c, *l, row.env, row.value);
        }
    }
    reveal(by_row);
    reveal(run);
}

#[verifier::spinoff_prover]
proof fn by_runs_through(c: CtxV, r: AstV, rows: Seq<RowV>)
    requires
        covered(c, lookups(r)),
        r is By,
    ensures
        by_table(c, r, rows) is Ok,
    decreases r, rows.len() + 2,
{
    if rows.len() > 0 {
        by_runs_through(c, r, rows.drop_last());
        by_row_runs_through(c, r, rows.last());
    }
    reveal_with_fuel(by_table, 2);
    reveal(by_row);
}

#[verifier::spinoff_prover]
proof fn output_runs_through(c: CtxV, o: AggOutputV, env: EnvV)
    requires
        covered(c, lookups_output(o)),
    ensures
        output(c, o, env) is Ok,
    decreases o, 0nat,
{
    match o {
        AggOutputV::Leaf { expr, default } => {
            assert(lookups_output(o) == lookups(*expr) + lookups_opt(default)) by {
                reveal(lookups_output);
                reveal(lookups);
                reveal(lookups_opt);
            }
            covers_both(c, lookups(*expr), lookups_opt(default));
            covers_opt(c, default);
            indexed_queries_run_through(c, *expr, env, ValueV::Null);
            if let Some(d) = default {
                indexed_queries_run_through(c, *d, env, ValueV::Null);
            }
            reveal(output);
            reveal(run);
        },
        AggOutputV::Object(fields) => {
            assert(lookups_output(o) == lookups_outputs(fields)) by {
                reveal(lookups_output);
                reveal(lookups_outputs);
            }
            assert(decreases_to!(o => fields));
            outputs_run_through(c, fields, env);
            reveal(output);
            reveal(outputs);
        },
    }
}

#[verifier::spinoff_prover]
proof fn covers_outputs(c: CtxV, o: Seq<(Seq<char>, AggOutputV)>)
    requires
        covered(c, lookups_outputs(o)),
        o.len() > 0,
    ensures
        covered(c, lookups_outputs(o.drop_last())),
        covered(c, lookups_output(o.last().1)),
{
    assert(lookups_outputs(o) == lookups_outputs(o.drop_last()) + lookups_output(o.last().1)) by {
        reveal_with_fuel(lookups_outputs, 2);
        reveal(lookups_output);
    }
    covers_both(c, lookups_outputs(o.drop_last()), lookups_output(o.last().1));
}

#[verifier::spinoff_prover]
proof fn outputs_run_through(c: CtxV, o: Seq<(Seq<char>, AggOutputV)>, env: EnvV)
    requires
        covered(c, lookups_outputs(o)),
    ensures
        outputs(c, o, env) is Ok,
    decreases o, 0nat,
{
    if o.len() > 0 {
        covers_outputs(c, o);
        outputs_run_through(c, o.drop_last(), env);
        assert(decreases_to!(o => o.last()));
        assert(decreases_to!(o.last() => o.last().1));
        output_runs_through(c, o.last().1, env);
    }
    reveal_with_fuel(outputs, 2);
    reveal(output);
}

#[verifier::spinoff_prover]
proof fn output_rows_run_through(
    c: CtxV,
    o: Seq<(Seq<char>, AggOutputV)>,
    inside: EnvV,
    env: EnvV,
)
    requires
        covered(c, lookups_outputs(o)),
    ensures
        output_rows(c, o, inside, env).err is None,
    decreases o, 0nat,
{
    if o.len() > 0 {
        covers_outputs(c, o);
        output_rows_run_through(c, o.drop_last(), inside, env);
        assert(decreases_to!(o => o.last()));
        assert(decreases_to!(o.last() => o.last().1));
        output_runs_through(c, o.last().1, inside);
    }
    reveal_with_fuel(output_rows, 2);
    reveal(output);
}

proof fn buckets_run_through(
    c: CtxV,
    o: Seq<(Seq<char>, AggOutputV)>,
    names: Seq<Seq<char>>,
    ops: Seq<super::super::ast::ReducerOp>,
    b: Seq<BucketV>,
    env: EnvV,
)
    requires
        covered(c, lookups_outputs(o)),
    ensures
        bucket_rows(c, o, names, ops, b, env).err is None,
    decreases o, b.len() + 1,
{
    bucket_rows_step(c, o, names, ops, b, env);
    if b.len() > 0 {
        buckets_run_through(c, o, names, ops, b.drop_last(), env);
        outputs_run_through(
            c,
            o,
            super::semantics::with_slots(env, super::model::slots_of(c, ops, b.last())),
        );
    }
}

/// The table and the rows of an aggregate block.
#[verifier::spinoff_prover]
#[verifier::rlimit(60)]
proof fn block_runs_through(c: CtxV, a: AstV, env: EnvV, s: StreamV)
    requires
        covered(c, lookups(a)),
        a is AggregateBlock,
        s.err is None,
    ensures
        after(c, a, env, s).err is None,
    decreases a, 2nat,
{
    covers_parts(c, a);
    if let AstV::AggregateBlock { group, reductions, outputs } = a {
        let rows = s.rows;
        let ops = ops_of(reductions);
        assert(decreases_to!(a => reductions));
        assert(decreases_to!(a => outputs));
        assert forall|i: int, j: int| 0 <= i < reductions.len() && 0 <= j < rows.len() implies sees(
            c,
            #[trigger] reductions[i],
            #[trigger] rows[j],
        ) by {
            covers_reductions(c, reductions, i);
            covers_opt(c, reductions[i].value);
            covers_opt(c, reductions[i].where_pred);
            assert(decreases_to!(reductions => reductions[i]));
            if let Some(p) = reductions[i].where_pred {
                assert(decreases_to!(reductions[i] => reductions[i].where_pred));
                assert(decreases_to!(reductions[i].where_pred => *p));
                indexed_queries_run_through(c, *p, rows[j].env, rows[j].value);
            }
            if let Some(x) = reductions[i].value {
                assert(decreases_to!(reductions[i] => reductions[i].value));
                assert(decreases_to!(reductions[i].value => *x));
                indexed_queries_run_through(c, *x, rows[j].env, rows[j].value);
            }
        }
        let t = match group {
            None => {
                plain_table(c, reductions, outputs, rows);
                agg_table(c, a, rows)->Ok_0
            },
            Some(AggGroupV::Single { name, key }) => {
                assert(covered(c, lookups(*key))) by {
                    reveal(lookups_group);
                    reveal(lookups);
                }
                assert(decreases_to!(a => group));
                assert(decreases_to!(group => *key));
                assert forall|j: int| 0 <= j < rows.len() implies run(
                    c,
                    *key,
                    (#[trigger] rows[j]).env,
                    rows[j].value,
                ).err is None by {
                    indexed_queries_run_through(c, *key, rows[j].env, rows[j].value);
                }
                single_table(c, name, *key, reductions, outputs, rows);
                agg_table(c, a, rows)->Ok_0
            },
            Some(AggGroupV::Rollup(keys)) => {
                assert(covered(c, lookups_keys(keys))) by {
                    reveal(lookups_group);
                    reveal(lookups_keys);
                }
                assert(decreases_to!(a => group));
                assert(decreases_to!(group => keys));
                assert forall|i: int, j: int| 0 <= i < keys.len() && 0 <= j < rows.len() implies run(
                    c,
                    *(#[trigger] keys[i]).key,
                    (#[trigger] rows[j]).env,
                    rows[j].value,
                ).err is None by {
                    covers_keys(c, keys, i);
                    assert(decreases_to!(keys => keys[i]));
                    assert(decreases_to!(keys[i] => *keys[i].key));
                    indexed_queries_run_through(c, *keys[i].key, rows[j].env, rows[j].value);
                }
                roll_table(c, keys, reductions, outputs, rows);
                agg_table(c, a, rows)->Ok_0
            },
        };
        assert(agg_table(c, a, rows) == Ok::<Seq<KeyedV>, Missing>(t));
        block_gives(c, a, env, s, t);
        block_rows_run_through(c, group, ops, outputs, t, env);
    }
}

#[verifier::spinoff_prover]
proof fn block_gives(c: CtxV, a: AstV, env: EnvV, s: StreamV, t: Seq<KeyedV>)
    requires
        s.err is None,
        a is AggregateBlock,
        agg_table(c, a, s.rows) == Ok::<Seq<KeyedV>, Missing>(t),
    ensures
        match a {
            AstV::AggregateBlock { group, reductions, outputs } => after(c, a, env, s) == agg_rows(
                c,
                group,
                ops_of(reductions),
                outputs,
                t,
                env,
            ),
            _ => true,
        },
{
    reveal(after);
    reveal(agg_table);
    reveal(agg_rows);
}

#[verifier::spinoff_prover]
proof fn block_rows_run_through(
    c: CtxV,
    g: Option<AggGroupV>,
    ops: Seq<super::super::ast::ReducerOp>,
    o: Seq<(Seq<char>, AggOutputV)>,
    t: Seq<KeyedV>,
    env: EnvV,
)
    requires
        covered(c, lookups_outputs(o)),
    ensures
        agg_rows(c, g, ops, o, t, env).err is None,
    decreases o, super::semantics::rolled_len(c, g, ops, t) + 2,
{
    match g {
        None => {
            output_rows_run_through(
                c,
                o,
                super::semantics::with_slots(
                    env,
                    super::model::slots_of(c, ops, super::model::grouped(c, ops, t, 0)[0]),
                ),
                env,
            );
        },
        Some(AggGroupV::Single { name, .. }) => {
            buckets_run_through(
                c,
                o,
                seq![name],
                ops,
                super::model::grouped(c, ops, t, 1),
                env,
            );
        },
        Some(AggGroupV::Rollup(keys)) => {
            buckets_run_through(
                c,
                o,
                super::semantics::roll_names(keys),
                ops,
                super::semantics::rolled_up(c, ops, t, keys.len()),
                env,
            );
        },
    }
    reveal(agg_rows);
    reveal(output_rows);
    reveal(bucket_rows);
}

} // verus!
