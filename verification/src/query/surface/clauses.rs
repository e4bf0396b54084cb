//! What the clauses of a compiled query do: each in terms of the same query
//! without it.
use vstd::prelude::*;

use super::super::ast::{AstV, SortDir};
use super::super::evaluator::laws::{
    and_asks_for_all, distinct_keeps_one_of_each, or_asks_for_one, passes,
    reordering_keeps_the_alternative, reordering_keeps_the_condition, sorting_keeps_every_row,
    sound,
};
use super::super::evaluator::fingerprint::print_of;
use super::super::evaluator::joining::part_at;
use super::super::evaluator::model::{
    any_true, first, limited, names_of, no_rows, object_of, one, printed, CtxV, EnvV, Missing, RowV,
    StreamV,
};
use super::super::evaluator::reaching::{each_step, pipe_runs_on_each_row};
use super::super::evaluator::semantics::{
    after, dirs_of, each, in_order, left, named_firsts, run, sort_table, sorted, stage_env,
};
use super::super::evaluator::sorting::{keys_sound, order_by_sorts, sorted_by};
use super::super::evaluator::walk::{env_of_stage, run_of_pipe};
use super::predicates::{conjuncts, disjuncts, reordered};
use super::super::value::ValueV;
use super::super::QueryFault;
use super::ast::{ExprV, OrderKeyV, QueryV};
use super::lowering::{
    distinct_ast, duplicate_alias, limited_ast, lowered, lowered_aggregate, lowered_block,
    lowered_columns, lowered_having, lowered_join, lowered_joins, lowered_keys, lowered_order,
    lowered_path, lowered_query, lowered_rest, lowered_select, lowered_unnests, lowered_where,
    piped, ParamV, ScopeV, StageV,
};

verus! {

/// What a query is compiled with: its parameters, the aliases around it, and
/// how deep queries may still nest.
pub struct Setting {
    pub params: Seq<(Seq<char>, ParamV)>,
    pub aliases: Seq<Seq<char>>,
    pub left: nat,
}

/// The tree of a query.
pub open spec fn plan(q: QueryV, w: Setting) -> Result<AstV, QueryFault> {
    lowered_query(q, w.params, w.aliases, w.left)
}

/// The scope that a query starts with.
pub open spec fn outer_scope(q: QueryV, w: Setting) -> ScopeV {
    ScopeV {
        aliases: w.aliases,
        sets: q.field_sets,
        params: w.params,
        lets: Seq::empty(),
        strip: None,
        left: w.left,
    }
}

/// The rows of a query, up to its joins and unnests.
pub open spec fn rows_plan(q: QueryV, w: Setting) -> Result<StageV, QueryFault> {
    let s = outer_scope(q, w);
    match lowered_path(q.source.path, s) {
        Err(e) => Err(e),
        Ok(source) => if w.aliases.contains(q.source.alias) {
            Err(duplicate_alias(q.source.alias))
        } else {
            let start = StageV {
                ast: piped(
                    AstV::Tap(Box::new(source)),
                    AstV::Let { name: q.source.alias, value: Box::new(AstV::Identity) },
                ),
                aliases: w.aliases.push(q.source.alias),
            };
            match lowered_joins(q.joins, start, s) {
                Err(e) => Err(e),
                Ok(t) => lowered_unnests(q.unnests, t, s),
            }
        },
    }
}

/// The scope of the clauses behind the rows.
pub open spec fn inner_scope(q: QueryV, w: Setting) -> ScopeV {
    outer_scope(q, w).with_aliases(rows_plan(q, w)->Ok_0.aliases)
}

#[verifier::spinoff_prover]
proof fn plan_unfold(q: QueryV, w: Setting)
    ensures
        plan(q, w) == match rows_plan(q, w) {
            Err(e) => Err::<AstV, QueryFault>(e),
            Ok(t) => lowered_rest(q, t.ast, inner_scope(q, w)),
        },
{
    reveal(lowered_query);
    reveal(lowered_joins);
    reveal(lowered_unnests);
    reveal(lowered_rest);
}

/// The same query without its limit.
pub open spec fn unlimited(q: QueryV) -> QueryV {
    QueryV { limit: None, ..q }
}

/// The same query without its order and its limit.
pub open spec fn unordered(q: QueryV) -> QueryV {
    QueryV { limit: None, order_by: Seq::empty(), ..q }
}

/// The same query up to `having`.
pub open spec fn unselected(q: QueryV) -> QueryV {
    QueryV { limit: None, order_by: Seq::empty(), project: None, ..q }
}

/// The same query up to its aggregate.
pub open spec fn unfiltered(q: QueryV) -> QueryV {
    QueryV { limit: None, order_by: Seq::empty(), project: None, having: None, ..q }
}

/// The same query up to `distinct`.
pub open spec fn ungrouped(q: QueryV) -> QueryV {
    QueryV {
        limit: None,
        order_by: Seq::empty(),
        project: None,
        having: None,
        aggregate: None,
        alias_lets: Seq::empty(),
        ..q
    }
}

/// The same query up to `where`.
pub open spec fn undistinct(q: QueryV) -> QueryV {
    QueryV {
        limit: None,
        order_by: Seq::empty(),
        project: None,
        having: None,
        aggregate: None,
        alias_lets: Seq::empty(),
        distinct: false,
        ..q
    }
}

/// The rows of the query alone.
pub open spec fn bare(q: QueryV) -> QueryV {
    QueryV {
        limit: None,
        order_by: Seq::empty(),
        project: None,
        having: None,
        aggregate: None,
        alias_lets: Seq::empty(),
        distinct: false,
        where_clause: None,
        ..q
    }
}

/// How the clauses of a query follow one another.
#[verifier::spinoff_prover]
proof fn rest_unfold(q: QueryV, a: AstV, s: ScopeV)
    ensures
        lowered_rest(q, a, s) == match lowered_rest(unlimited(q), a, s) {
            Err(e) => Err::<AstV, QueryFault>(e),
            Ok(x) => Ok(limited_ast(x, q.limit)),
        },
        lowered_rest(unlimited(q), a, s) == match lowered_rest(unordered(q), a, s) {
            Err(e) => Err::<AstV, QueryFault>(e),
            Ok(x) => lowered_order(q.order_by, x, s),
        },
        lowered_rest(unordered(q), a, s) == match lowered_rest(unselected(q), a, s) {
            Err(e) => Err::<AstV, QueryFault>(e),
            Ok(x) => lowered_select(q.project, x, s),
        },
{
    reveal(lowered_rest);
    reveal(lowered_where);
    reveal(lowered_aggregate);
    reveal(lowered_having);
    reveal(lowered_select);
    reveal(lowered_order);
}

#[verifier::spinoff_prover]
proof fn rest_unfold_rows(q: QueryV, a: AstV, s: ScopeV)
    ensures
        lowered_rest(unselected(q), a, s) == match lowered_rest(unfiltered(q), a, s) {
            Err(e) => Err::<AstV, QueryFault>(e),
            Ok(x) => lowered_having(q.having, q.aggregate is Some, x, s),
        },
        lowered_rest(unfiltered(q), a, s) == match lowered_rest(ungrouped(q), a, s) {
            Err(e) => Err::<AstV, QueryFault>(e),
            Ok(x) => lowered_aggregate(q.aggregate, q.alias_lets, x, s),
        },
        lowered_rest(ungrouped(q), a, s) == match lowered_rest(undistinct(q), a, s) {
            Err(e) => Err::<AstV, QueryFault>(e),
            Ok(x) => Ok(distinct_ast(x, q.distinct)),
        },
        lowered_rest(undistinct(q), a, s) == lowered_where(q.where_clause, a, s),
        lowered_rest(bare(q), a, s) == Ok::<AstV, QueryFault>(a),
{
    reveal(lowered_rest);
    reveal(lowered_where);
    reveal(lowered_aggregate);
    reveal(lowered_having);
    reveal(lowered_select);
    reveal(lowered_order);
}

/// The clauses of a query, each compiled behind those before it.
pub proof fn clauses_follow_one_another(q: QueryV, w: Setting)
    requires
        rows_plan(q, w) is Ok,
    ensures
        ({
            let s = inner_scope(q, w);
            &&& plan(bare(q), w) == Ok::<AstV, QueryFault>(rows_plan(q, w)->Ok_0.ast)
            &&& plan(undistinct(q), w) == lowered_where(q.where_clause, plan(bare(q), w)->Ok_0, s)
            &&& plan(ungrouped(q), w) == match plan(undistinct(q), w) {
                Err(e) => Err::<AstV, QueryFault>(e),
                Ok(x) => Ok(distinct_ast(x, q.distinct)),
            }
            &&& plan(unfiltered(q), w) == match plan(ungrouped(q), w) {
                Err(e) => Err::<AstV, QueryFault>(e),
                Ok(x) => lowered_aggregate(q.aggregate, q.alias_lets, x, s),
            }
            &&& plan(unselected(q), w) == match plan(unfiltered(q), w) {
                Err(e) => Err::<AstV, QueryFault>(e),
                Ok(x) => lowered_having(q.having, q.aggregate is Some, x, s),
            }
            &&& plan(unordered(q), w) == match plan(unselected(q), w) {
                Err(e) => Err::<AstV, QueryFault>(e),
                Ok(x) => lowered_select(q.project, x, s),
            }
            &&& plan(unlimited(q), w) == match plan(unordered(q), w) {
                Err(e) => Err::<AstV, QueryFault>(e),
                Ok(x) => lowered_order(q.order_by, x, s),
            }
            &&& plan(q, w) == match plan(unlimited(q), w) {
                Err(e) => Err::<AstV, QueryFault>(e),
                Ok(x) => Ok(limited_ast(x, q.limit)),
            }
        }),
{
    let t = rows_plan(q, w)->Ok_0;
    let s = inner_scope(q, w);
    plan_unfold(q, w);
    plan_unfold(unlimited(q), w);
    plan_unfold(unordered(q), w);
    plan_unfold(unselected(q), w);
    plan_unfold(unfiltered(q), w);
    plan_unfold(ungrouped(q), w);
    plan_unfold(undistinct(q), w);
    plan_unfold(bare(q), w);
    rest_unfold(q, t.ast, s);
    rest_unfold_rows(q, t.ast, s);
}

#[verifier::spinoff_prover]
proof fn joins_keep_piping(q: QueryV, w: Setting, n: int, st: StageV, s: ScopeV)
    requires
        st.ast is Pipe,
        0 <= n <= q.joins.len(),
    ensures
        lowered_joins(q.joins.take(n), st, s) matches Ok(t) ==> t.ast is Pipe,
    decreases n,
{
    let v = q.joins.take(n);
    if n > 0 {
        assert(v.drop_last() =~= q.joins.take(n - 1));
        joins_keep_piping(q, w, n - 1, st, s);
    }
    reveal_with_fuel(lowered_joins, 2);
    reveal(lowered_join);
}

#[verifier::spinoff_prover]
proof fn unnests_keep_piping(q: QueryV, n: int, st: StageV, s: ScopeV)
    requires
        st.ast is Pipe,
        0 <= n <= q.unnests.len(),
    ensures
        lowered_unnests(q.unnests.take(n), st, s) matches Ok(t) ==> t.ast is Pipe,
    decreases n,
{
    let v = q.unnests.take(n);
    if n > 0 {
        assert(v.drop_last() =~= q.unnests.take(n - 1));
        unnests_keep_piping(q, n - 1, st, s);
    }
    reveal_with_fuel(lowered_unnests, 2);
    reveal(lowered);
}

/// The tree of the rows of a query is a pipe.
proof fn rows_are_piped(q: QueryV, w: Setting)
    requires
        rows_plan(q, w) is Ok,
    ensures
        rows_plan(q, w)->Ok_0.ast is Pipe,
{
    let s = outer_scope(q, w);
    let source = lowered_path(q.source.path, s)->Ok_0;
    let start = StageV {
        ast: piped(
            AstV::Tap(Box::new(source)),
            AstV::Let { name: q.source.alias, value: Box::new(AstV::Identity) },
        ),
        aliases: w.aliases.push(q.source.alias),
    };
    assert(q.joins.take(q.joins.len() as int) =~= q.joins);
    assert(q.unnests.take(q.unnests.len() as int) =~= q.unnests);
    joins_keep_piping(q, w, q.joins.len() as int, start, s);
    unnests_keep_piping(q, q.unnests.len() as int, lowered_joins(q.joins, start, s)->Ok_0, s);
}

#[verifier::spinoff_prover]
proof fn clauses_keep_piping(q: QueryV, w: Setting)
    requires
        rows_plan(q, w) is Ok,
    ensures
        plan(bare(q), w)->Ok_0 is Pipe,
        plan(undistinct(q), w) matches Ok(a) ==> a is Pipe,
        plan(ungrouped(q), w) matches Ok(a) ==> a is Pipe,
        plan(unfiltered(q), w) matches Ok(a) ==> a is Pipe,
        plan(unselected(q), w) matches Ok(a) ==> a is Pipe,
        plan(unordered(q), w) matches Ok(a) ==> a is Pipe,
        plan(unlimited(q), w) matches Ok(a) ==> a is Pipe,
{
    rows_are_piped(q, w);
    clauses_follow_one_another(q, w);
    reveal(lowered_where);
    reveal(lowered_aggregate);
    reveal(lowered_block);
    reveal(lowered_having);
    reveal(lowered_select);
    reveal(lowered_order);
}

/// A limit behind a tree.
#[verifier::spinoff_prover]
proof fn limit_behind(c: CtxV, a: AstV, n: u64, env: EnvV, v: ValueV)
    requires
        c.cap is None,
        a is Pipe,
        run(c, a, env, v).err is None,
    ensures
        ({
            let all = run(c, a, env, v);
            let out = run(c, piped(a, AstV::Limit(n)), env, v);
            &&& out.err is None
            &&& all.rows.len() <= n ==> out.rows == all.rows
            &&& all.rows.len() > n ==> out.rows == all.rows.take(n as int)
        }),
{
    let b = AstV::Pipe(Box::new(a), Box::new(AstV::Limit(n)));
    let all = run(c, a, env, v);
    run_of_pipe(c, b, env, v);
    run_of_pipe(c, a, env, v);
    env_of_stage(c, a, AstV::Limit(n), env, v);
    assert(after(c, AstV::Limit(n), env, all) == limited(all, n as nat)) by {
        reveal(after);
    }
    match a {
        AstV::Pipe(source, mid) => {
            env_of_stage(c, *source, *mid, env, v);
            if let AstV::SortBy(keys) = *mid {
                let s = run(c, *source, env, v);
                let e = left(c, *source, env, v, None);
                assert(all == sorted(c, keys, None, e, s)) by {
                    reveal(after);
                    reveal(sorted);
                }
                reveal(sorted);
                reveal(sort_table);
                let t = sort_table(c, keys, s.rows)->Ok_0;
                let dirs = dirs_of(keys);
                sorting_keeps_every_row(t, dirs, s.rows.len());
                assert(all == in_order(c, t, dirs, None, e, s.rows));
                let out = run(c, b, env, v);
                if n == 0 {
                    assert(all.rows.take(0) =~= Seq::empty());
                    if all.rows.len() == 0 {
                        assert(out.rows =~= all.rows);
                    }
                } else {
                    assert(out == in_order(c, t, dirs, Some(n as nat), e, s.rows));
                    if all.rows.len() > n {
                        assert(out.rows =~= all.rows.take(n as int));
                    } else {
                        assert(out.rows =~= all.rows);
                    }
                }
            }
        },
        _ => {},
    }
}

/// `limit` gives the first rows that the query gives without it, as many as
/// it says.
pub proof fn limit_gives_the_first_rows(c: CtxV, q: QueryV, w: Setting, n: u64, env: EnvV, v: ValueV)
    requires
        c.cap is None,
        rows_plan(q, w) is Ok,
        plan(unlimited(q), w) is Ok,
        q.limit == Some(n),
        run(c, plan(unlimited(q), w)->Ok_0, env, v).err is None,
    ensures
        plan(q, w) is Ok,
        ({
            let all = run(c, plan(unlimited(q), w)->Ok_0, env, v).rows;
            let out = run(c, plan(q, w)->Ok_0, env, v);
            &&& out.err is None
            &&& out.rows == all.take(
                if all.len() <= n {
                    all.len() as int
                } else {
                    n as int
                },
            )
        }),
{
    clauses_follow_one_another(q, w);
    clauses_keep_piping(q, w);
    let a = plan(unlimited(q), w)->Ok_0;
    limit_behind(c, a, n, env, v);
    let all = run(c, a, env, v).rows;
    assert(all.take(all.len() as int) =~= all);
}

/// The keys of `order by`, in their order, each with its own direction.
pub open spec fn order_keys(v: Seq<OrderKeyV>, s: ScopeV, keys: Seq<(AstV, SortDir)>) -> bool {
    &&& keys.len() == v.len()
    &&& forall|i: int|
        0 <= i < v.len() ==> lowered((#[trigger] v[i]).expr, s) == Ok::<AstV, QueryFault>(
            keys[i].0,
        ) && keys[i].1 == if v[i].desc {
            SortDir::Desc
        } else {
            SortDir::Asc
        }
}

#[verifier::spinoff_prover]
proof fn keys_in_order(v: Seq<OrderKeyV>, s: ScopeV)
    ensures
        lowered_keys(v, s) matches Ok(keys) ==> order_keys(v, s, keys),
        (forall|i: int| 0 <= i < v.len() ==> lowered((#[trigger] v[i]).expr, s) is Ok)
            ==> lowered_keys(v, s) is Ok,
    decreases v.len(),
{
    if v.len() > 0 {
        let less = v.drop_last();
        keys_in_order(less, s);
        assert(lowered_keys(v, s) == match lowered_keys(less, s) {
            Err(e) => Err::<Seq<(AstV, SortDir)>, QueryFault>(e),
            Ok(rest) => match lowered(v.last().expr, s) {
                Err(e) => Err(e),
                Ok(x) => Ok(
                    rest.push(
                        (
                            x,
                            if v.last().desc {
                                SortDir::Desc
                            } else {
                                SortDir::Asc
                            },
                        ),
                    ),
                ),
            },
        }) by {
            reveal_with_fuel(lowered_keys, 2);
            reveal(lowered);
        }
        assert(v[v.len() - 1] == v.last());
        if forall|i: int| 0 <= i < v.len() ==> lowered((#[trigger] v[i]).expr, s) is Ok {
            assert forall|i: int| 0 <= i < less.len() implies lowered(
                (#[trigger] less[i]).expr,
                s,
            ) is Ok by {
                assert(less[i] == v[i]);
            }
        }
        if let Ok(keys) = lowered_keys(v, s) {
            let rest = lowered_keys(less, s)->Ok_0;
            assert forall|i: int| 0 <= i < v.len() implies lowered((#[trigger] v[i]).expr, s) == Ok::<
                AstV,
                QueryFault,
            >(keys[i].0) && keys[i].1 == if v[i].desc {
                SortDir::Desc
            } else {
                SortDir::Asc
            } by {
                if i < less.len() {
                    assert(less[i] == v[i] && rest[i] == keys[i]);
                }
            }
        }
    } else {
        reveal(lowered_keys);
    }
}

/// `order by` gives the rows that the query gives without it, sorted: the
/// first key in which neighbours differ ranks in its own direction, `desc` or
/// not, and rows with equal keys stay in order.
#[verifier::spinoff_prover]
pub proof fn order_by_sorts_the_rows(
    c: CtxV,
    q: QueryV,
    w: Setting,
    keys: Seq<(AstV, SortDir)>,
    env: EnvV,
    v: ValueV,
)
    requires
        c.cap is None,
        rows_plan(q, w) is Ok,
        plan(unordered(q), w) is Ok,
        q.order_by.len() > 0,
        order_keys(q.order_by, inner_scope(q, w), keys),
        run(c, plan(unordered(q), w)->Ok_0, env, v).err is None,
        forall|r: int|
            0 <= r < run(c, plan(unordered(q), w)->Ok_0, env, v).rows.len() ==> keys_sound(
                c,
                keys,
                #[trigger] run(c, plan(unordered(q), w)->Ok_0, env, v).rows[r],
            ),
    ensures
        plan(unlimited(q), w) is Ok,
        run(c, plan(unlimited(q), w)->Ok_0, env, v).err is None,
        exists|order: Seq<int>|
            sorted_by(
                c,
                keys,
                run(c, plan(unordered(q), w)->Ok_0, env, v).rows,
                run(c, plan(unlimited(q), w)->Ok_0, env, v).rows,
                order,
            ),
{
    let s = inner_scope(q, w);
    let a = plan(unordered(q), w)->Ok_0;
    clauses_follow_one_another(q, w);
    clauses_keep_piping(q, w);
    keys_in_order(q.order_by, s);
    let k = lowered_keys(q.order_by, s)->Ok_0;
    assert forall|i: int| 0 <= i < k.len() implies k[i] == keys[i] by {
        let e = q.order_by[i];
    }
    assert(k =~= keys);
    let b = AstV::Pipe(Box::new(a), Box::new(AstV::SortBy(keys)));
    assert(plan(unlimited(q), w) == Ok::<AstV, QueryFault>(b)) by {
        reveal(lowered_order);
        reveal(lowered_keys);
    }
    run_of_pipe(c, b, env, v);
    let e = stage_env(c, a, AstV::SortBy(keys), env, v);
    order_by_sorts(c, keys, e, run(c, a, env, v));
}

/// A condition is decided on each of these rows: none of the parts of a chain
/// of `and` or `or` runs into an error there.
pub open spec fn settles(c: CtxV, a: AstV, rows: Seq<RowV>) -> bool {
    forall|i: int| 0 <= i < rows.len() ==> settled(c, a, #[trigger] rows[i])
}

pub open spec fn settled(c: CtxV, a: AstV, row: RowV) -> bool {
    match a {
        AstV::And(_, _) => sound(c, conjuncts(a), row.env, row.value),
        AstV::Or(_, _) => sound(c, disjuncts(a), row.env, row.value),
        _ => run(c, a, row.env, row.value).err is None,
    }
}

/// The rows of which a condition holds.
pub open spec fn passing(c: CtxV, a: AstV, rows: Seq<RowV>) -> Seq<RowV> {
    rows.filter(|r: RowV| passes(c, a, r.env, r.value))
}

/// A condition that is decided on a row holds there or does not.
#[verifier::spinoff_prover]
proof fn settled_holds(c: CtxV, a: AstV, row: RowV)
    requires
        settled(c, a, row),
    ensures
        any_true(c.doc, run(c, a, row.env, row.value)) == Ok::<bool, Missing>(
            passes(c, a, row.env, row.value),
        ),
        any_true(c.doc, run(c, reordered(a), row.env, row.value)) == Ok::<bool, Missing>(
            passes(c, a, row.env, row.value),
        ),
{
    match a {
        AstV::And(_, _) => {
            and_asks_for_all(c, a, row.env, row.value);
            reordering_keeps_the_condition(c, a, row.env, row.value);
        },
        AstV::Or(_, _) => {
            or_asks_for_one(c, a, row.env, row.value);
            reordering_keeps_the_alternative(c, a, row.env, row.value);
        },
        _ => {},
    }
}

/// A filter on each row.
#[verifier::spinoff_prover]
pub proof fn filter_each(c: CtxV, a: AstV, p: AstV, rows: Seq<RowV>)
    requires
        settles(c, a, rows),
        p == a || p == reordered(a),
    ensures
        each(c, AstV::Select(Box::new(p)), rows) == (StreamV {
            rows: passing(c, a, rows),
            err: None,
        }),
    decreases rows.len(),
{
    let f = AstV::Select(Box::new(p));
    each_step(c, f, rows);
    reveal(Seq::filter);
    if rows.len() > 0 {
        let less = rows.drop_last();
        assert forall|i: int| 0 <= i < less.len() implies settled(c, a, #[trigger] less[i]) by {
            assert(less[i] == rows[i]);
        }
        filter_each(c, a, p, less);
        let row = rows[rows.len() - 1];
        settled_holds(c, a, row);
        let b = passes(c, a, row.env, row.value);
        assert(run(c, f, row.env, row.value) == if b {
            one(row.env, row.value)
        } else {
            no_rows()
        }) by {
            reveal(run);
        }
        let kept = passing(c, a, less);
        if b {
            assert(kept + one(row.env, row.value).rows =~= kept.push(row));
        } else {
            assert(kept + no_rows().rows =~= kept);
        }
    } else {
        assert(passing(c, a, rows) =~= Seq::empty());
    }
}

/// `where` keeps exactly the rows of which the condition holds, in their
/// order and as they are.
#[verifier::spinoff_prover]
pub proof fn where_keeps_the_rows_that_pass(
    c: CtxV,
    q: QueryV,
    w: Setting,
    e: ExprV,
    a: AstV,
    env: EnvV,
    v: ValueV,
)
    requires
        rows_plan(q, w) is Ok,
        q.where_clause == Some(e),
        lowered(e, inner_scope(q, w)) == Ok::<AstV, QueryFault>(a),
        run(c, plan(bare(q), w)->Ok_0, env, v).err is None,
        settles(c, a, run(c, plan(bare(q), w)->Ok_0, env, v).rows),
    ensures
        plan(undistinct(q), w) is Ok,
        run(c, plan(undistinct(q), w)->Ok_0, env, v) == (StreamV {
            rows: passing(c, a, run(c, plan(bare(q), w)->Ok_0, env, v).rows),
            err: None,
        }),
{
    let b = plan(bare(q), w)->Ok_0;
    clauses_follow_one_another(q, w);
    clauses_keep_piping(q, w);
    let f = AstV::Select(Box::new(reordered(a)));
    assert(plan(undistinct(q), w) == Ok::<AstV, QueryFault>(
        AstV::Pipe(Box::new(b), Box::new(f)),
    )) by {
        reveal(lowered_where);
        reveal(lowered);
    }
    pipe_runs_on_each_row(c, b, f, env, v);
    filter_each(c, a, reordered(a), run(c, b, env, v).rows);
}

/// `having` keeps exactly the groups of which the condition holds.
#[verifier::spinoff_prover]
pub proof fn having_keeps_the_groups_that_pass(
    c: CtxV,
    q: QueryV,
    w: Setting,
    e: ExprV,
    a: AstV,
    env: EnvV,
    v: ValueV,
)
    requires
        rows_plan(q, w) is Ok,
        q.having == Some(e),
        q.aggregate is Some,
        lowered(e, inner_scope(q, w)) == Ok::<AstV, QueryFault>(a),
        plan(unfiltered(q), w) is Ok,
        run(c, plan(unfiltered(q), w)->Ok_0, env, v).err is None,
        settles(c, a, run(c, plan(unfiltered(q), w)->Ok_0, env, v).rows),
    ensures
        plan(unselected(q), w) is Ok,
        run(c, plan(unselected(q), w)->Ok_0, env, v) == (StreamV {
            rows: passing(c, a, run(c, plan(unfiltered(q), w)->Ok_0, env, v).rows),
            err: None,
        }),
{
    let b = plan(unfiltered(q), w)->Ok_0;
    clauses_follow_one_another(q, w);
    clauses_keep_piping(q, w);
    let f = AstV::Select(Box::new(a));
    assert(plan(unselected(q), w) == Ok::<AstV, QueryFault>(
        AstV::Pipe(Box::new(b), Box::new(f)),
    )) by {
        reveal(lowered_having);
        reveal(lowered);
    }
    pipe_runs_on_each_row(c, b, f, env, v);
    filter_each(c, a, a, run(c, b, env, v).rows);
}

/// `distinct` keeps one row of each fingerprint: every row that it keeps was
/// there, no two that it keeps are alike, and each that was there has its like.
#[verifier::spinoff_prover]
pub proof fn distinct_drops_repeated_rows(c: CtxV, q: QueryV, w: Setting, env: EnvV, v: ValueV)
    requires
        rows_plan(q, w) is Ok,
        q.distinct,
        plan(undistinct(q), w) is Ok,
    ensures
        plan(ungrouped(q), w) is Ok,
        ({
            let rows = run(c, plan(undistinct(q), w)->Ok_0, env, v).rows;
            let d = run(c, plan(ungrouped(q), w)->Ok_0, env, v).rows;
            &&& forall|i: int, j: int|
                0 <= i < j < d.len() ==> print_of(c.doc, c.n, (#[trigger] d[i]).value) != print_of(
                    c.doc,
                    c.n,
                    (#[trigger] d[j]).value,
                )
            &&& forall|i: int| 0 <= i < d.len() ==> rows.contains(#[trigger] d[i])
            &&& forall|i: int| 0 <= i < rows.len() ==> printed(c, d, (#[trigger] rows[i]).value)
        }),
{
    let a = plan(undistinct(q), w)->Ok_0;
    clauses_follow_one_another(q, w);
    clauses_keep_piping(q, w);
    let b = AstV::Pipe(Box::new(a), Box::new(AstV::Distinct));
    run_of_pipe(c, b, env, v);
    reveal(after);
    distinct_keeps_one_of_each(c, run(c, a, env, v).rows);
}

/// The columns of `select`, in their order.
pub open spec fn column_trees(
    v: Seq<(Seq<char>, ExprV)>,
    s: ScopeV,
    cols: Seq<(Seq<char>, AstV)>,
) -> bool {
    &&& cols.len() == v.len()
    &&& forall|i: int|
        0 <= i < v.len() ==> lowered((#[trigger] v[i]).1, s) == Ok::<AstV, QueryFault>(cols[i].1)
            && cols[i].0 == v[i].0
}

#[verifier::spinoff_prover]
proof fn columns_in_order(v: Seq<(Seq<char>, ExprV)>, s: ScopeV)
    ensures
        lowered_columns(v, s) matches Ok(cols) ==> column_trees(v, s, cols),
        (forall|i: int| 0 <= i < v.len() ==> lowered((#[trigger] v[i]).1, s) is Ok)
            ==> lowered_columns(v, s) is Ok,
    decreases v.len(),
{
    if v.len() > 0 {
        let less = v.drop_last();
        columns_in_order(less, s);
        assert(lowered_columns(v, s) == match lowered_columns(less, s) {
            Err(e) => Err::<Seq<(Seq<char>, AstV)>, QueryFault>(e),
            Ok(rest) => match lowered(v.last().1, s) {
                Err(e) => Err(e),
                Ok(x) => Ok(rest.push((v.last().0, x))),
            },
        }) by {
            reveal_with_fuel(lowered_columns, 2);
            reveal(lowered);
        }
        assert(v[v.len() - 1] == v.last());
        if forall|i: int| 0 <= i < v.len() ==> lowered((#[trigger] v[i]).1, s) is Ok {
            assert forall|i: int| 0 <= i < less.len() implies lowered(
                (#[trigger] less[i]).1,
                s,
            ) is Ok by {
                assert(less[i] == v[i]);
            }
        }
        if let Ok(cols) = lowered_columns(v, s) {
            let rest = lowered_columns(less, s)->Ok_0;
            assert forall|i: int| 0 <= i < v.len() implies lowered((#[trigger] v[i]).1, s) == Ok::<
                AstV,
                QueryFault,
            >(cols[i].1) && cols[i].0 == v[i].0 by {
                if i < less.len() {
                    assert(less[i] == v[i] && rest[i] == cols[i]);
                }
            }
        }
    } else {
        reveal(lowered_columns);
    }
}

/// A row under its columns: each has the first value of its expression, or
/// null.
pub open spec fn projected(c: CtxV, cols: Seq<(Seq<char>, AstV)>, row: RowV) -> RowV {
    RowV {
        env: row.env,
        value: ValueV::Object(
            Seq::new(
                cols.len(),
                |i: int|
                    (
                        cols[i].0,
                        match part_at(c, cols[i].1, row.env, row.value) {
                            Some(x) => x,
                            None => ValueV::Null,
                        },
                    ),
            ),
        ),
    }
}

/// No column of a row runs into an error.
pub open spec fn columns_sound(c: CtxV, cols: Seq<(Seq<char>, AstV)>, row: RowV) -> bool {
    forall|i: int| 0 <= i < cols.len() ==> run(c, (#[trigger] cols[i]).1, row.env, row.value).err is None
}

#[verifier::spinoff_prover]
pub proof fn columns_are_parts(c: CtxV, cols: Seq<(Seq<char>, AstV)>, row: RowV)
    requires
        columns_sound(c, cols, row),
    ensures
        named_firsts(c, cols, row.env, row.value) == Ok::<Seq<Option<ValueV>>, Missing>(
            Seq::new(cols.len(), |i: int| part_at(c, cols[i].1, row.env, row.value)),
        ),
    decreases cols.len(),
{
    let want = Seq::new(cols.len(), |i: int| part_at(c, cols[i].1, row.env, row.value));
    if cols.len() == 0 {
        reveal(named_firsts);
        assert(want =~= Seq::empty());
    } else {
        let less = cols.drop_last();
        assert forall|i: int| 0 <= i < less.len() implies run(
            c,
            (#[trigger] less[i]).1,
            row.env,
            row.value,
        ).err is None by {
            assert(less[i] == cols[i]);
        }
        columns_are_parts(c, less, row);
        let rest = Seq::new(less.len(), |i: int| part_at(c, less[i].1, row.env, row.value));
        assert(cols[cols.len() - 1] == cols.last());
        let t = run(c, cols.last().1, row.env, row.value);
        assert(named_firsts(c, cols, row.env, row.value) == Ok::<Seq<Option<ValueV>>, Missing>(
            rest.push(first(t)->Ok_0),
        )) by {
            reveal_with_fuel(named_firsts, 2);
            reveal(run);
        }
        assert(rest.push(first(t)->Ok_0) =~= want);
    }
}

#[verifier::spinoff_prover]
proof fn project_each(c: CtxV, cols: Seq<(Seq<char>, AstV)>, rows: Seq<RowV>)
    requires
        forall|i: int| 0 <= i < rows.len() ==> columns_sound(c, cols, #[trigger] rows[i]),
    ensures
        each(c, AstV::Project(cols), rows) == (StreamV {
            rows: Seq::new(rows.len(), |i: int| projected(c, cols, rows[i])),
            err: None,
        }),
    decreases rows.len(),
{
    let f = AstV::Project(cols);
    let want = Seq::new(rows.len(), |i: int| projected(c, cols, rows[i]));
    each_step(c, f, rows);
    if rows.len() == 0 {
        assert(want =~= Seq::empty());
    } else {
        let less = rows.drop_last();
        assert forall|i: int| 0 <= i < less.len() implies columns_sound(c, cols, #[trigger] less[i]) by {
            assert(less[i] == rows[i]);
        }
        project_each(c, cols, less);
        let row = rows[rows.len() - 1];
        columns_are_parts(c, cols, row);
        let x = named_firsts(c, cols, row.env, row.value)->Ok_0;
        assert(run(c, f, row.env, row.value) == one(row.env, object_of(names_of(cols), x))) by {
            reveal(run);
            reveal(named_firsts);
        }
        assert(object_of(names_of(cols), x)->Object_0 =~= projected(c, cols, row).value->Object_0);
        let rest = Seq::new(less.len(), |i: int| projected(c, cols, less[i]));
        assert(rest + one(row.env, object_of(names_of(cols), x)).rows =~= want);
    }
}

/// `select` gives a row for each row that the query gives without it: an
/// object of the columns, each under its name.
#[verifier::spinoff_prover]
pub proof fn select_gives_the_columns(
    c: CtxV,
    q: QueryV,
    w: Setting,
    e: Seq<(Seq<char>, ExprV)>,
    cols: Seq<(Seq<char>, AstV)>,
    env: EnvV,
    v: ValueV,
)
    requires
        rows_plan(q, w) is Ok,
        q.project == Some(e),
        column_trees(e, inner_scope(q, w), cols),
        plan(unselected(q), w) is Ok,
        run(c, plan(unselected(q), w)->Ok_0, env, v).err is None,
        forall|i: int|
            0 <= i < run(c, plan(unselected(q), w)->Ok_0, env, v).rows.len() ==> columns_sound(
                c,
                cols,
                #[trigger] run(c, plan(unselected(q), w)->Ok_0, env, v).rows[i],
            ),
    ensures
        plan(unordered(q), w) is Ok,
        ({
            let rows = run(c, plan(unselected(q), w)->Ok_0, env, v).rows;
            run(c, plan(unordered(q), w)->Ok_0, env, v) == (StreamV {
                rows: Seq::new(rows.len(), |i: int| projected(c, cols, rows[i])),
                err: None,
            })
        }),
{
    let s = inner_scope(q, w);
    let b = plan(unselected(q), w)->Ok_0;
    clauses_follow_one_another(q, w);
    clauses_keep_piping(q, w);
    columns_in_order(e, s);
    let k = lowered_columns(e, s)->Ok_0;
    assert forall|i: int| 0 <= i < k.len() implies k[i] == cols[i] by {
        let x = e[i];
    }
    assert(k =~= cols);
    let f = AstV::Project(cols);
    assert(plan(unordered(q), w) == Ok::<AstV, QueryFault>(
        AstV::Pipe(Box::new(b), Box::new(f)),
    )) by {
        reveal(lowered_select);
        reveal(lowered_columns);
    }
    pipe_runs_on_each_row(c, b, f, env, v);
    project_each(c, cols, run(c, b, env, v).rows);
}

} // verus!
