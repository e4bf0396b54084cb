//! What the rows of a query come from: its source, its joins and its unnests.
use vstd::prelude::*;

use super::super::ast::AstV;
use super::super::evaluator::model::{
    all_of, bound_rows, elements_of, first, one, CtxV, EnvV, Missing, RowV, StreamV,
};
use super::super::evaluator::reaching::{each_step, pipe_runs_on_each_row};
use super::super::evaluator::semantics::{each, run};
use super::super::value::ValueV;
use super::super::QueryFault;
use super::ast::{ExprV, JoinClauseV, JoinKind, QueryV, UnnestClauseV};
use super::clauses::{bare, clauses_follow_one_another, outer_scope, plan, rows_plan, Setting};
use super::lowering::{
    duplicate_alias, is_equalities, join_keys, lowered, lowered_join, lowered_joins, lowered_path,
    lowered_unnests, piped, refers, JoinKeysV, ScopeV, StageV,
};

verus! {

/// Each value of a source, bound to the alias.
pub open spec fn bound_to(rows: Seq<RowV>, alias: Seq<char>) -> Seq<RowV> {
    Seq::new(
        rows.len(),
        |i: int| RowV { env: rows[i].env.bind(alias, rows[i].value), value: rows[i].value },
    )
}

#[verifier::spinoff_prover]
proof fn bind_each(c: CtxV, alias: Seq<char>, rows: Seq<RowV>)
    ensures
        each(c, AstV::Let { name: alias, value: Box::new(AstV::Identity) }, rows) == (StreamV {
            rows: bound_to(rows, alias),
            err: None,
        }),
    decreases rows.len(),
{
    let f = AstV::Let { name: alias, value: Box::new(AstV::Identity) };
    each_step(c, f, rows);
    if rows.len() == 0 {
        assert(bound_to(rows, alias) =~= Seq::empty());
    } else {
        let less = rows.drop_last();
        bind_each(c, alias, less);
        let row = rows.last();
        assert(run(c, AstV::Identity, row.env, row.value) == one(row.env, row.value)) by {
            reveal(run);
        }
        let here = one(row.env.bind(alias, row.value), row.value);
        assert(run(c, f, row.env, row.value) == here) by {
            reveal(run);
            assert(first(one(row.env, row.value)) == Ok::<Option<ValueV>, Missing>(
                Some(row.value),
            ));
        }
        assert(bound_to(less, alias) + here.rows =~= bound_to(rows, alias));
    }
}

/// `from` gives a row for each value of its path, bound to the alias.
#[verifier::spinoff_prover]
pub proof fn from_binds_each_value(
    c: CtxV,
    q: QueryV,
    w: Setting,
    source: AstV,
    env: EnvV,
    v: ValueV,
)
    requires
        q.joins.len() == 0,
        q.unnests.len() == 0,
        lowered_path(q.source.path, outer_scope(q, w)) == Ok::<AstV, QueryFault>(source),
        !w.aliases.contains(q.source.alias),
    ensures
        plan(bare(q), w) is Ok,
        run(c, plan(bare(q), w)->Ok_0, env, v) == (StreamV {
            rows: bound_to(run(c, source, env, v).rows, q.source.alias),
            err: run(c, source, env, v).err,
        }),
{
    let s = outer_scope(q, w);
    let tap = AstV::Tap(Box::new(source));
    let f = AstV::Let { name: q.source.alias, value: Box::new(AstV::Identity) };
    let a = AstV::Pipe(Box::new(tap), Box::new(f));
    let start = StageV { ast: a, aliases: w.aliases.push(q.source.alias) };
    assert(lowered_joins(q.joins, start, s) == Ok::<StageV, QueryFault>(start)) by {
        reveal(lowered_joins);
    }
    assert(lowered_unnests(q.unnests, start, s) == Ok::<StageV, QueryFault>(start)) by {
        reveal(lowered_unnests);
    }
    assert(rows_plan(q, w) == Ok::<StageV, QueryFault>(start));
    clauses_follow_one_another(q, w);
    assert(run(c, tap, env, v) == run(c, source, env, v)) by {
        reveal(run);
    }
    pipe_runs_on_each_row(c, tap, f, env, v);
    bind_each(c, q.source.alias, run(c, tap, env, v).rows);
}

/// The elements of a value: those of a list that the query made, or what
/// iteration over an array gives.
pub open spec fn elements(c: CtxV, env: EnvV, x: ValueV) -> Seq<ValueV> {
    match x {
        ValueV::Array(items) => items,
        ValueV::Node(id) => if c.doc.kind_of(id) == crate::document::NodeKind::Array {
            Seq::new(
                run(c, AstV::Iterate, env, x).rows.len(),
                |i: int| run(c, AstV::Iterate, env, x).rows[i].value,
            )
        } else {
            Seq::empty()
        },
        _ => Seq::empty(),
    }
}

/// `unnest` gives a row for each element of the value of its expression, with
/// the element bound to the alias. What is no array has no elements.
#[verifier::spinoff_prover]
pub proof fn unnest_binds_each_element(
    c: CtxV,
    alias: Seq<char>,
    source: AstV,
    env: EnvV,
    v: ValueV,
    e: EnvV,
    x: ValueV,
)
    requires
        run(c, source, env, v) == one(e, x),
    ensures
        ({
            let out = run(c, AstV::UnnestEach { alias, source: Box::new(source) }, env, v);
            let items = elements(c, env, x);
            &&& out.err is None
            &&& out.rows == Seq::new(
                items.len(),
                |i: int| RowV { env: env.bind(alias, items[i]), value: v },
            )
        }),
{
    let a = AstV::UnnestEach { alias, source: Box::new(source) };
    let items = elements(c, env, x);
    assert(first(one(e, x)) == Ok::<Option<ValueV>, Missing>(Some(x)));
    assert(run(c, a, env, v) == (StreamV {
        rows: bound_rows(env, alias, elements_of(c, Some(x)), v),
        err: None,
    })) by {
        reveal(run);
    }
    assert(elements_of(c, Some(x)) =~= items) by {
        if let ValueV::Node(id) = x {
            assert(run(c, AstV::Iterate, env, x) == all_of(
                env,
                super::super::evaluator::model::kids_of(c, x),
            )) by {
                reveal(run);
            }
        }
    }
}

/// Each unnest of a query is compiled behind the rows before it, and sees
/// their aliases.
#[verifier::spinoff_prover]
pub proof fn unnests_follow_one_another(v: Seq<UnnestClauseV>, u: UnnestClauseV, st: StageV, s: ScopeV)
    requires
        lowered_unnests(v, st, s) is Ok,
    ensures
        ({
            let t = lowered_unnests(v, st, s)->Ok_0;
            lowered_unnests(v.push(u), st, s) == if t.aliases.contains(u.alias) {
                Err::<StageV, QueryFault>(duplicate_alias(u.alias))
            } else {
                match lowered(u.expr, s.with_aliases(t.aliases)) {
                    Err(e) => Err(e),
                    Ok(x) => Ok(
                        StageV {
                            ast: piped(
                                t.ast,
                                AstV::UnnestEach { alias: u.alias, source: Box::new(x) },
                            ),
                            aliases: t.aliases.push(u.alias),
                        },
                    ),
                }
            }
        }),
{
    assert(v.push(u).drop_last() =~= v);
    reveal_with_fuel(lowered_unnests, 2);
    reveal(lowered);
}

/// The two sides of each equality of a join's condition, in their order.
pub open spec fn equalities(e: ExprV) -> Seq<(ExprV, ExprV)>
    decreases e,
{
    match e {
        ExprV::Compare(l, _, r) => seq![(*l, *r)],
        ExprV::And(l, r) => equalities(*l) + equalities(*r),
        _ => Seq::empty(),
    }
}

/// The keys of a join belong to its equalities: for each of them, the side
/// under the new alias is the key of the joined rows, and the other side that
/// of the rows before.
pub open spec fn keys_match(
    eqs: Seq<(ExprV, ExprV)>,
    alias: Seq<char>,
    s: ScopeV,
    k: JoinKeysV,
) -> bool {
    &&& k.outer.len() == eqs.len()
    &&& k.inner.len() == eqs.len()
    &&& forall|i: int|
        0 <= i < eqs.len() ==> key_matches(#[trigger] eqs[i], alias, s, k.outer[i], k.inner[i])
}

pub open spec fn key_matches(
    eq: (ExprV, ExprV),
    alias: Seq<char>,
    s: ScopeV,
    outer: AstV,
    inner: AstV,
) -> bool {
    let (new, old) = if refers(eq.0, alias) {
        (eq.0, eq.1)
    } else {
        (eq.1, eq.0)
    };
    &&& refers(new, alias) && !refers(old, alias)
    &&& lowered(old, s) == Ok::<AstV, QueryFault>(outer)
    &&& lowered(new, s.stripping(alias)) == Ok::<AstV, QueryFault>(inner)
}

#[verifier::spinoff_prover]
proof fn keys_of_equalities(e: ExprV, alias: Seq<char>, s: ScopeV)
    requires
        is_equalities(e),
    ensures
        join_keys(e, alias, s) matches Ok(k) ==> keys_match(equalities(e), alias, s, k),
        equalities(e).len() > 0,
    decreases e,
{
    match e {
        ExprV::Compare(l, _, r) => {
            reveal(join_keys);
            reveal(lowered);
            let k = join_keys(e, alias, s)->Ok_0;
            if join_keys(e, alias, s) is Ok {
                assert(equalities(e) =~= seq![(*l, *r)]);
                assert(key_matches(equalities(e)[0], alias, s, k.outer[0], k.inner[0]));
            }
        },
        ExprV::And(l, r) => {
            keys_of_equalities(*l, alias, s);
            keys_of_equalities(*r, alias, s);
            assert(join_keys(e, alias, s) == match join_keys(*l, alias, s) {
                Err(f) => Err::<JoinKeysV, QueryFault>(f),
                Ok(x) => match join_keys(*r, alias, s) {
                    Err(f) => Err(f),
                    Ok(y) => Ok(JoinKeysV { outer: x.outer + y.outer, inner: x.inner + y.inner }),
                },
            }) by {
                reveal_with_fuel(join_keys, 2);
            }
            if let Ok(k) = join_keys(e, alias, s) {
                let p = equalities(*l);
                let q = equalities(*r);
                let all = equalities(e);
                let x = join_keys(*l, alias, s)->Ok_0;
                let y = join_keys(*r, alias, s)->Ok_0;
                assert(all == p + q);
                assert forall|i: int| 0 <= i < all.len() implies key_matches(
                    #[trigger] all[i],
                    alias,
                    s,
                    k.outer[i],
                    k.inner[i],
                ) by {
                    if i < p.len() {
                        assert(key_matches(p[i], alias, s, x.outer[i], x.inner[i]));
                    } else {
                        let j = i - p.len();
                        assert(key_matches(q[j], alias, s, y.outer[j], y.inner[j]));
                    }
                }
            }
        },
        _ => {},
    }
}

/// A join looks up the keys of all of its equalities: one key where there is
/// one, a tuple of them where there are several.
#[verifier::spinoff_prover]
pub proof fn joins_use_every_equality(j: JoinClauseV, s: ScopeV)
    ensures
        match lowered_join(j, s) {
            Ok(AstV::JoinEach { alias, outer_key, lookup, inner }) => {
                let n = equalities(j.on).len();
                &&& n > 0
                &&& alias == j.alias
                &&& inner == (j.kind == JoinKind::Inner)
                &&& exists|k: JoinKeysV|
                    #[trigger] keys_match(equalities(j.on), j.alias, s, k) && if n == 1 {
                        *outer_key == k.outer[0] && *lookup->Lookup_key == k.inner[0]
                    } else {
                        *outer_key == AstV::KeyTuple(k.outer) && *lookup->Lookup_key
                            == AstV::KeyTuple(k.inner)
                    }
            },
            Ok(_) => false,
            Err(_) => true,
        },
{
    reveal(lowered_join);
    reveal(join_keys);
    if is_equalities(j.on) {
        keys_of_equalities(j.on, j.alias, s);
        if let Ok(k) = join_keys(j.on, j.alias, s) {
            assert(keys_match(equalities(j.on), j.alias, s, k));
        }
    }
}

/// Each join of a query is compiled behind the rows before it, and sees their
/// aliases; its own alias is bound behind it.
#[verifier::spinoff_prover]
pub proof fn joins_follow_one_another(v: Seq<JoinClauseV>, j: JoinClauseV, st: StageV, s: ScopeV)
    requires
        lowered_joins(v, st, s) is Ok,
    ensures
        ({
            let t = lowered_joins(v, st, s)->Ok_0;
            lowered_joins(v.push(j), st, s) == if t.aliases.contains(j.alias) {
                Err::<StageV, QueryFault>(duplicate_alias(j.alias))
            } else {
                match lowered_join(j, s.with_aliases(t.aliases)) {
                    Err(e) => Err(e),
                    Ok(x) => Ok(
                        StageV { ast: piped(t.ast, x), aliases: t.aliases.push(j.alias) },
                    ),
                }
            }
        }),
{
    assert(v.push(j).drop_last() =~= v);
    reveal_with_fuel(lowered_joins, 2);
    reveal(lowered_join);
}

} // verus!
