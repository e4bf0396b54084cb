//! What holds of every query.
use vstd::prelude::*;

use super::super::ast::{AstV, CompareOp, ReducerOp, SortDir};
use super::super::index::{key_order, ScalarKeyV};
use super::super::order::{text_order, Rank};
use super::super::surface::predicates::{
    by_cost, by_cost_same_members, conjuncts, disjuncts, reordered, reordering_keeps_conjuncts,
    reordering_keeps_disjuncts,
};
use super::super::value::{scalar, truthy, ScalarV, ValueV};
use super::compare::compared;
use super::fingerprint::print_of;
use super::counts::{cost, nothing, plus, quiet, stage_cost};
use super::model::{
    all_of, any_true, broken, distinct_rows, field_equals, field_of, fields_equal, first, flag,
    grouped, has_true, keys_before, keys_to, no_rows, one, opt_row, printed,
    put_row, put_sorted, sort_rank, sorted_order, sorts_before, values_of, BucketV, CtxV, EnvV,
    KeyedV, Missing, RowV, StreamV,
};
use super::queries::{filed, key_at};
use super::semantics::{after, comparisons, each, followed, left, run, taken};
use super::walk::{asked_of, env_of_stage, left_of, pulled_step, run_of_pipe};
use crate::document::NodeKind;

verus! {

/// A stage that reads the whole stream before it.
pub open spec fn reads_a_stream(a: AstV) -> bool {
    a is Sum || a is Min || a is Max || a is Avg || a is Count || a is By || a is SortBy
        || a is Limit || a is Distinct || a is AggregateBlock
}

/// Where no stream comes before it, such a stage passes its input on.
#[verifier::spinoff_prover]
pub proof fn stream_stage_alone_is_identity(c: CtxV, a: AstV, env: EnvV, v: ValueV)
    requires
        reads_a_stream(a),
    ensures
        run(c, a, env, v) == one(env, v),
{
    reveal(run);
}

/// `limit` lets the first rows through, and no error that only comes behind
/// them.
#[verifier::spinoff_prover]
pub proof fn limit_takes_the_first_rows(c: CtxV, n: u64, env: EnvV, s: StreamV)
    ensures
        ({
            let out = after(c, AstV::Limit(n), env, s);
            if s.rows.len() > n {
                out.rows == s.rows.take(n as int) && out.err is None
            } else {
                out == s
            }
        }),
{
    reveal(after);
}

/// `exists` tells whether an expression gives anything at all, be it null.
#[verifier::spinoff_prover]
pub proof fn exists_asks_for_a_value(c: CtxV, e: AstV, env: EnvV, v: ValueV)
    requires
        run(c, e, env, v).err is None,
    ensures
        run(c, AstV::Exists(Box::new(e)), env, v) == one(
            env,
            ValueV::Bool(run(c, e, env, v).rows.len() > 0),
        ),
{
    assert(run(c, AstV::Exists(Box::new(e)), env, v) == match first(run(c, e, env, v)) {
        Err(x) => broken(x),
        Ok(o) => one(env, ValueV::Bool(o is Some)),
    }) by {
        reveal(run);
    }
}

/// A condition lets a row through as it is, or drops it.
#[verifier::spinoff_prover]
pub proof fn select_filters(c: CtxV, p: AstV, env: EnvV, v: ValueV)
    requires
        run(c, p, env, v).err is None,
    ensures
        run(c, AstV::Select(Box::new(p)), env, v) == if any_true(c.doc, run(c, p, env, v)) == Ok::<
            bool,
            Missing,
        >(true) {
            one(env, v)
        } else {
            no_rows()
        },
{
    assert(run(c, AstV::Select(Box::new(p)), env, v) == match any_true(
        c.doc,
        run(c, p, env, v),
    ) {
        Ok(true) => one(env, v),
        Ok(false) => no_rows(),
        Err(e) => broken(e),
    }) by {
        reveal(run);
    }
}

/// `distinct` keeps rows of its input, no two of them alike, and one for
/// each that it saw.
pub proof fn distinct_keeps_one_of_each(c: CtxV, rows: Seq<RowV>)
    ensures
        ({
            let d = distinct_rows(c, rows);
            &&& forall|i: int, j: int|
                0 <= i < j < d.len() ==> print_of(c.doc, c.n, (#[trigger] d[i]).value) != print_of(
                    c.doc,
                    c.n,
                    (#[trigger] d[j]).value,
                )
            &&& forall|i: int| 0 <= i < d.len() ==> rows.contains(#[trigger] d[i])
            &&& forall|i: int| 0 <= i < rows.len() ==> printed(c, d, (#[trigger] rows[i]).value)
        }),
    decreases rows.len(),
{
    if rows.len() > 0 {
        let less = rows.drop_last();
        let kept = distinct_rows(c, less);
        let d = distinct_rows(c, rows);
        distinct_keeps_one_of_each(c, less);
        assert forall|i: int| 0 <= i < d.len() implies rows.contains(#[trigger] d[i]) by {
            if i < kept.len() {
                assert(less.contains(kept[i]));
                let k = choose|k: int| 0 <= k < less.len() && less[k] == kept[i];
                assert(rows[k] == d[i]);
            } else {
                assert(rows[rows.len() - 1] == d[i]);
            }
        }
        assert forall|i: int, j: int| 0 <= i < j < d.len() implies print_of(
            c.doc,
            c.n,
            (#[trigger] d[i]).value,
        ) != print_of(c.doc, c.n, (#[trigger] d[j]).value) by {
            if j < kept.len() {
                assert(kept[i] == d[i] && kept[j] == d[j]);
            } else {
                assert(kept[i] == d[i]);
                assert(!printed(c, kept, rows.last().value));
            }
        }
        assert forall|i: int| 0 <= i < rows.len() implies printed(c, d, (#[trigger] rows[i]).value) by {
            if i < less.len() {
                assert(less[i] == rows[i]);
                assert(printed(c, kept, less[i].value));
                let k = choose|k: int|
                    0 <= k < kept.len() && print_of(c.doc, c.n, (#[trigger] kept[k]).value)
                        == print_of(c.doc, c.n, rows[i].value);
                assert(d[k] == kept[k]);
            } else if printed(c, kept, rows.last().value) {
                assert(d == kept);
            } else {
                assert(d[kept.len() as int] == rows.last());
            }
        }
    }
}

proof fn put_sorted_adds(order: Seq<int>, keys: Seq<Seq<ScalarV>>, dirs: Seq<SortDir>, x: int)
    ensures
        put_sorted(order, keys, dirs, x).len() == order.len() + 1,
        put_sorted(order, keys, dirs, x).to_multiset() == order.to_multiset().insert(x),
    decreases order.len(),
{
    broadcast use vstd::seq_lib::group_to_multiset_ensures;

    if order.len() == 0 {
        assert(seq![x] =~= order.push(x));
    } else if sorts_before(keys[x], keys[order.last()], dirs, 0) {
        let less = order.drop_last();
        put_sorted_adds(less, keys, dirs, x);
        assert(less.push(order.last()) =~= order);
        assert(less.to_multiset().insert(x).insert(order.last()) =~= less.to_multiset().insert(
            order.last(),
        ).insert(x));
    }
}

/// Sorting rows by their keys loses none and repeats none: the places of the
/// sorted rows are those of the rows.
pub proof fn sorting_keeps_every_row(keys: Seq<Seq<ScalarV>>, dirs: Seq<SortDir>, n: nat)
    ensures
        sorted_order(keys, dirs, n).len() == n,
        sorted_order(keys, dirs, n).to_multiset() == Seq::new(n, |i: int| i).to_multiset(),
    decreases n,
{
    broadcast use vstd::seq_lib::group_to_multiset_ensures;

    let places = Seq::new(n, |i: int| i);
    if n > 0 {
        let m = (n - 1) as nat;
        sorting_keeps_every_row(keys, dirs, m);
        put_sorted_adds(sorted_order(keys, dirs, m), keys, dirs, n - 1);
        assert(places =~= Seq::new(m, |i: int| i).push(n - 1));
    } else {
        assert(places =~= Seq::empty());
        assert(sorted_order(keys, dirs, n) =~= Seq::empty());
    }
}

proof fn ranks_turn(a: ScalarV, b: ScalarV)
    ensures
        sort_rank(a, b) == Rank::Less <==> sort_rank(b, a) == Rank::Greater,
        sort_rank(a, b) == Rank::Equal <==> sort_rank(b, a) == Rank::Equal,
{
    if let (ScalarV::Str(x), ScalarV::Str(y)) = (a, b) {
        text_order(x, y, x);
        text_order(y, x, y);
    }
}

proof fn sorts_one_way(x: Seq<ScalarV>, y: Seq<ScalarV>, dirs: Seq<SortDir>, i: int)
    requires
        sorts_before(x, y, dirs, i),
    ensures
        !sorts_before(y, x, dirs, i),
    decreases dirs.len() - i,
{
    ranks_turn(x[i], y[i]);
    ranks_turn(y[i], x[i]);
    if sort_rank(x[i], y[i]) == Rank::Equal {
        sorts_one_way(x, y, dirs, i + 1);
    }
}

/// No row stands right behind one that it sorts before.
pub open spec fn in_sequence(
    order: Seq<int>,
    keys: Seq<Seq<ScalarV>>,
    dirs: Seq<SortDir>,
) -> bool {
    forall|i: int|
        #![trigger order[i]]
        0 < i < order.len() ==> !sorts_before(keys[order[i]], keys[order[i - 1]], dirs, 0)
}

proof fn put_sorted_in_sequence(
    order: Seq<int>,
    keys: Seq<Seq<ScalarV>>,
    dirs: Seq<SortDir>,
    x: int,
)
    requires
        in_sequence(order, keys, dirs),
    ensures
        in_sequence(put_sorted(order, keys, dirs, x), keys, dirs),
        put_sorted(order, keys, dirs, x).len() > 0,
        put_sorted(order, keys, dirs, x).last() == x || (order.len() > 0 && put_sorted(
            order,
            keys,
            dirs,
            x,
        ).last() == order.last()),
    decreases order.len(),
{
    let out = put_sorted(order, keys, dirs, x);
    if order.len() > 0 && sorts_before(keys[x], keys[order.last()], dirs, 0) {
        let less = order.drop_last();
        let inner = put_sorted(less, keys, dirs, x);
        assert forall|i: int| 0 < i < less.len() implies !sorts_before(
            keys[#[trigger] less[i]],
            keys[less[i - 1]],
            dirs,
            0,
        ) by {
            assert(order[i] == less[i] && order[i - 1] == less[i - 1]);
        }
        put_sorted_in_sequence(less, keys, dirs, x);
        assert(out == inner.push(order.last()));
        if inner.last() == x {
            sorts_one_way(keys[x], keys[order.last()], dirs, 0);
        } else {
            assert(order[order.len() - 1] == order.last());
            assert(less.last() == order[order.len() - 2]);
        }
        assert forall|i: int| 0 < i < out.len() implies !sorts_before(
            keys[#[trigger] out[i]],
            keys[out[i - 1]],
            dirs,
            0,
        ) by {
            if i < inner.len() {
                assert(inner[i] == out[i] && inner[i - 1] == out[i - 1]);
            }
        }
    } else if order.len() > 0 {
        assert(out == order.push(x));
        assert forall|i: int| 0 < i < out.len() implies !sorts_before(
            keys[#[trigger] out[i]],
            keys[out[i - 1]],
            dirs,
            0,
        ) by {
            if i < order.len() {
                assert(order[i] == out[i] && order[i - 1] == out[i - 1]);
            }
        }
    }
}

/// Sorted rows are in sequence.
pub proof fn sorting_sorts(keys: Seq<Seq<ScalarV>>, dirs: Seq<SortDir>, n: nat)
    ensures
        in_sequence(sorted_order(keys, dirs, n), keys, dirs),
    decreases n,
{
    if n > 0 {
        let m = (n - 1) as nat;
        sorting_sorts(keys, dirs, m);
        put_sorted_in_sequence(sorted_order(keys, dirs, m), keys, dirs, n - 1);
    }
}

/// The field of one node, read through a pipe.
#[verifier::spinoff_prover]
proof fn piped_field(c: CtxV, base: AstV, f: Seq<char>, env: EnvV, v: ValueV, e: EnvV, x: ValueV)
    requires
        run(c, base, env, v) == one(e, x),
    ensures
        run(c, AstV::Pipe(Box::new(base), Box::new(AstV::Field(f))), env, v) == opt_row(
            e,
            field_of(c, f, x),
        ),
{
    let step = AstV::Field(f);
    let s = one(e, x);
    assert(run(c, step, e, x) == opt_row(e, field_of(c, f, x))) by {
        reveal(run);
    }
    assert(each(c, step, s.rows) == run(c, step, e, x)) by {
        reveal(each);
        reveal(run);
        assert(s.rows.drop_last() =~= Seq::empty());
        assert(each(c, step, s.rows.drop_last()) == no_rows());
        assert(s.rows.last() == RowV { env: e, value: x });
        assert(no_rows().rows + run(c, step, e, x).rows =~= run(c, step, e, x).rows);
    }
    assert(after(c, step, env, s) == followed(each(c, step, s.rows), s.err)) by {
        reveal(after);
        reveal(each);
    }
    assert(run(c, AstV::Pipe(Box::new(base), Box::new(step)), env, v) == after(
        c,
        step,
        env,
        run(c, base, env, v),
    )) by {
        run_of_pipe(c, AstV::Pipe(Box::new(base), Box::new(step)), env, v);
        env_of_stage(c, base, step, env, v);
    }
}

/// The fused comparison of a set of fields with one value holds exactly if
/// the comparison of each field holds by itself.
#[verifier::spinoff_prover]
pub proof fn field_set_compares_each_field(
    c: CtxV,
    base: AstV,
    fields: Seq<Seq<char>>,
    target: AstV,
    env: EnvV,
    v: ValueV,
    e: EnvV,
    id: u32,
    t: ValueV,
    d: EnvV,
)
    requires
        run(c, base, env, v) == one(e, ValueV::Node(id)),
        c.doc.kind_of(id) == NodeKind::Object,
        run(c, target, env, v) == one(d, t),
    ensures
        run(
            c,
            AstV::FieldSetEquals { base: Box::new(base), fields, target: Box::new(target) },
            env,
            v,
        ) == one(
            env,
            ValueV::Bool(
                forall|i: int|
                    0 <= i < fields.len() ==> field_compare_holds(
                        c,
                        base,
                        #[trigger] fields[i],
                        target,
                        env,
                        v,
                    ),
            ),
        ),
{
    assert forall|i: int| 0 <= i < fields.len() implies field_compare_holds(
        c,
        base,
        #[trigger] fields[i],
        target,
        env,
        v,
    ) == field_equals(c, id, fields[i], t) by {
        one_field_compares(c, base, fields[i], target, env, v, e, id, t, d);
    }
    assert(run(
        c,
        AstV::FieldSetEquals { base: Box::new(base), fields, target: Box::new(target) },
        env,
        v,
    ) == one(env, ValueV::Bool(fields_equal(c, id, fields, t)))) by {
        reveal(run);
    }
}

/// Whether the comparison of one field with a value holds.
pub open spec fn field_compare_holds(
    c: CtxV,
    base: AstV,
    f: Seq<char>,
    target: AstV,
    env: EnvV,
    v: ValueV,
) -> bool {
    let path = AstV::Pipe(Box::new(base), Box::new(AstV::Field(f)));
    any_true(c.doc, run(c, AstV::Compare(Box::new(path), CompareOp::Eq, Box::new(target)), env, v))
        == Ok::<bool, Missing>(true)
}

#[verifier::spinoff_prover]
proof fn one_field_compares(
    c: CtxV,
    base: AstV,
    f: Seq<char>,
    target: AstV,
    env: EnvV,
    v: ValueV,
    e: EnvV,
    id: u32,
    t: ValueV,
    d: EnvV,
)
    requires
        run(c, base, env, v) == one(e, ValueV::Node(id)),
        c.doc.kind_of(id) == NodeKind::Object,
        run(c, target, env, v) == one(d, t),
    ensures
        field_compare_holds(c, base, f, target, env, v) == field_equals(c, id, f, t),
{
    let path = AstV::Pipe(Box::new(base), Box::new(AstV::Field(f)));
    let whole = AstV::Compare(Box::new(path), CompareOp::Eq, Box::new(target));
    piped_field(c, base, f, env, v, e, ValueV::Node(id));
    let x = run(c, path, env, v);
    let y = run(c, target, env, v);
    let flags = comparisons(c, values_of(x.rows), CompareOp::Eq, values_of(y.rows));
    assert(run(c, whole, env, v) == all_of(env, flags)) by {
        reveal(run);
    }
    let rows = run(c, whole, env, v).rows;
    match field_of(c, f, ValueV::Node(id)) {
        None => {
            assert(values_of(x.rows).len() == 0);
            assert(flags =~= Seq::empty());
            assert(rows.len() == 0);
        },
        Some(w) => {
            assert(values_of(x.rows) =~= seq![w]);
            assert(values_of(y.rows) =~= seq![t]);
            assert(seq![w].drop_last() =~= Seq::empty());
            let b = compared(scalar(c.doc, c.n, w), CompareOp::Eq, scalar(c.doc, c.n, t));
            assert(comparisons(c, seq![w].drop_last(), CompareOp::Eq, seq![t]) =~= Seq::empty());
            assert(flags =~= seq![ValueV::Bool(b)]);
            assert(rows.len() == 1 && rows[0].value == ValueV::Bool(b));
            assert(truthy(c.doc, ValueV::Bool(b)) == b);
        },
    }
}

/// None of these conditions runs into an error.
pub open spec fn sound(c: CtxV, v: Seq<AstV>, env: EnvV, x: ValueV) -> bool {
    forall|i: int| 0 <= i < v.len() ==> run(c, #[trigger] v[i], env, x).err is None
}

/// Whether a condition holds of a row.
pub open spec fn passes(c: CtxV, a: AstV, env: EnvV, x: ValueV) -> bool {
    has_true(c.doc, run(c, a, env, x).rows)
}

proof fn flagged(c: CtxV, env: EnvV, b: bool)
    ensures
        any_true(c.doc, one(env, ValueV::Bool(b))) == Ok::<bool, Missing>(b),
{
    let rows = one(env, ValueV::Bool(b)).rows;
    assert(rows[0].value == ValueV::Bool(b));
    assert(truthy(c.doc, ValueV::Bool(b)) == b);
}

/// A chain of `and` holds of a row exactly if each of its conditions does.
#[verifier::spinoff_prover]
pub proof fn and_asks_for_all(c: CtxV, a: AstV, env: EnvV, x: ValueV)
    requires
        sound(c, conjuncts(a), env, x),
    ensures
        any_true(c.doc, run(c, a, env, x)) == Ok::<bool, Missing>(
            forall|i: int|
                0 <= i < conjuncts(a).len() ==> passes(c, #[trigger] conjuncts(a)[i], env, x),
        ),
    decreases a,
{
    match a {
        AstV::And(l, r) => {
            let p = conjuncts(*l);
            let q = conjuncts(*r);
            let all = conjuncts(a);
            assert(all == p + q);
            assert forall|i: int| 0 <= i < p.len() implies run(c, #[trigger] p[i], env, x).err is None by {
                assert(all[i] == p[i]);
            }
            assert forall|i: int| 0 <= i < q.len() implies run(c, #[trigger] q[i], env, x).err is None by {
                assert(all[p.len() + i] == q[i]);
            }
            and_asks_for_all(c, *l, env, x);
            and_asks_for_all(c, *r, env, x);
            let here = any_true(c.doc, run(c, *l, env, x));
            let there = any_true(c.doc, run(c, *r, env, x));
            assert(run(c, a, env, x) == match here {
                Ok(true) => flag(env, there),
                y => flag(env, y),
            }) by {
                reveal(run);
            }
            flagged(c, env, true);
            flagged(c, env, false);
            let pl = forall|i: int| 0 <= i < p.len() ==> passes(c, #[trigger] p[i], env, x);
            let pr = forall|i: int| 0 <= i < q.len() ==> passes(c, #[trigger] q[i], env, x);
            let pa = forall|i: int| 0 <= i < all.len() ==> passes(c, #[trigger] all[i], env, x);
            if pa {
                assert forall|i: int| 0 <= i < p.len() implies passes(c, #[trigger] p[i], env, x) by {
                    assert(all[i] == p[i]);
                }
                assert forall|i: int| 0 <= i < q.len() implies passes(c, #[trigger] q[i], env, x) by {
                    assert(all[p.len() + i] == q[i]);
                }
            }
            if pl && pr {
                assert forall|i: int| 0 <= i < all.len() implies passes(
                    c,
                    #[trigger] all[i],
                    env,
                    x,
                ) by {
                    if i < p.len() {
                        assert(all[i] == p[i]);
                    } else {
                        assert(all[i] == q[i - p.len()]);
                    }
                }
            }
            assert(pa == (pl && pr));
        },
        _ => {
            let all = conjuncts(a);
            assert(all == seq![a]);
            assert(all[0] == a);
            assert(run(c, all[0], env, x).err is None);
            assert((forall|i: int| 0 <= i < all.len() ==> passes(c, #[trigger] all[i], env, x))
                == passes(c, a, env, x)) by {
                if passes(c, a, env, x) {
                    assert forall|i: int| 0 <= i < all.len() implies passes(
                        c,
                        #[trigger] all[i],
                        env,
                        x,
                    ) by {
                        assert(i == 0);
                    }
                } else {
                    assert(!passes(c, all[0], env, x));
                }
            }
        },
    }
}

/// Reordering a chain of `and` by cost changes nothing about the rows that
/// pass it.
pub proof fn reordering_keeps_the_condition(c: CtxV, a: AstV, env: EnvV, x: ValueV)
    requires
        a is And,
        sound(c, conjuncts(a), env, x),
    ensures
        any_true(c.doc, run(c, reordered(a), env, x)) == any_true(c.doc, run(c, a, env, x)),
{
    let v = conjuncts(a);
    let w = by_cost(v);
    reordering_keeps_conjuncts(a);
    assert(conjuncts(reordered(a)) == w);
    assert forall|i: int| 0 <= i < w.len() implies run(c, #[trigger] w[i], env, x).err is None by {
        assert(w.contains(w[i]));
        by_cost_same_members(v, w[i]);
        let k = choose|k: int| 0 <= k < v.len() && v[k] == w[i];
        assert(run(c, v[k], env, x).err is None);
    }
    and_asks_for_all(c, a, env, x);
    and_asks_for_all(c, reordered(a), env, x);
    let before = forall|i: int| 0 <= i < v.len() ==> passes(c, #[trigger] v[i], env, x);
    let now = forall|i: int| 0 <= i < w.len() ==> passes(c, #[trigger] w[i], env, x);
    if before {
        assert forall|i: int| 0 <= i < w.len() implies passes(c, #[trigger] w[i], env, x) by {
            assert(w.contains(w[i]));
            by_cost_same_members(v, w[i]);
            let k = choose|k: int| 0 <= k < v.len() && v[k] == w[i];
            assert(passes(c, v[k], env, x));
        }
    }
    if now {
        assert forall|i: int| 0 <= i < v.len() implies passes(c, #[trigger] v[i], env, x) by {
            assert(v.contains(v[i]));
            by_cost_same_members(v, v[i]);
            let k = choose|k: int| 0 <= k < w.len() && w[k] == v[i];
            assert(passes(c, w[k], env, x));
        }
    }
    assert(before == now);
}

/// One of these conditions holds of a row.
pub open spec fn any_passes(c: CtxV, v: Seq<AstV>, env: EnvV, x: ValueV) -> bool {
    exists|i: int| 0 <= i < v.len() && passes(c, #[trigger] v[i], env, x)
}

/// A chain of `or` holds of a row exactly if one of its conditions does.
#[verifier::spinoff_prover]
pub proof fn or_asks_for_one(c: CtxV, a: AstV, env: EnvV, x: ValueV)
    requires
        sound(c, disjuncts(a), env, x),
    ensures
        any_true(c.doc, run(c, a, env, x)) == Ok::<bool, Missing>(
            any_passes(c, disjuncts(a), env, x),
        ),
    decreases a,
{
    match a {
        AstV::Or(l, r) => {
            let p = disjuncts(*l);
            let q = disjuncts(*r);
            let all = disjuncts(a);
            assert(all == p + q);
            assert forall|i: int| 0 <= i < p.len() implies run(c, #[trigger] p[i], env, x).err is None by {
                assert(all[i] == p[i]);
            }
            assert forall|i: int| 0 <= i < q.len() implies run(c, #[trigger] q[i], env, x).err is None by {
                assert(all[p.len() + i] == q[i]);
            }
            or_asks_for_one(c, *l, env, x);
            or_asks_for_one(c, *r, env, x);
            let here = any_true(c.doc, run(c, *l, env, x));
            let there = any_true(c.doc, run(c, *r, env, x));
            assert(run(c, a, env, x) == match here {
                Ok(false) => flag(env, there),
                y => flag(env, y),
            }) by {
                reveal(run);
            }
            flagged(c, env, true);
            flagged(c, env, false);
            if any_passes(c, p, env, x) {
                let k = choose|k: int| 0 <= k < p.len() && passes(c, #[trigger] p[k], env, x);
                assert(all[k] == p[k]);
            }
            if any_passes(c, q, env, x) {
                let k = choose|k: int| 0 <= k < q.len() && passes(c, #[trigger] q[k], env, x);
                assert(all[p.len() + k] == q[k]);
            }
            if any_passes(c, all, env, x) {
                let k = choose|k: int| 0 <= k < all.len() && passes(c, #[trigger] all[k], env, x);
                if k < p.len() {
                    assert(all[k] == p[k]);
                } else {
                    assert(all[k] == q[k - p.len()]);
                }
            }
            assert(any_passes(c, all, env, x) == (any_passes(c, p, env, x) || any_passes(
                c,
                q,
                env,
                x,
            )));
        },
        _ => {
            let all = disjuncts(a);
            assert(all == seq![a]);
            assert(all[0] == a);
            assert(run(c, all[0], env, x).err is None);
            assert(any_passes(c, all, env, x) == passes(c, a, env, x));
        },
    }
}

/// Reordering a chain of `or` by cost changes nothing about the rows that
/// pass it.
pub proof fn reordering_keeps_the_alternative(c: CtxV, a: AstV, env: EnvV, x: ValueV)
    requires
        a is Or,
        sound(c, disjuncts(a), env, x),
    ensures
        any_true(c.doc, run(c, reordered(a), env, x)) == any_true(c.doc, run(c, a, env, x)),
{
    let v = disjuncts(a);
    let w = by_cost(v);
    reordering_keeps_disjuncts(a);
    assert(disjuncts(reordered(a)) == w);
    assert forall|i: int| 0 <= i < w.len() implies run(c, #[trigger] w[i], env, x).err is None by {
        assert(w.contains(w[i]));
        by_cost_same_members(v, w[i]);
        let k = choose|k: int| 0 <= k < v.len() && v[k] == w[i];
        assert(run(c, v[k], env, x).err is None);
    }
    or_asks_for_one(c, a, env, x);
    or_asks_for_one(c, reordered(a), env, x);
    if any_passes(c, v, env, x) {
        let i = choose|i: int| 0 <= i < v.len() && passes(c, #[trigger] v[i], env, x);
        assert(v.contains(v[i]));
        by_cost_same_members(v, v[i]);
        let k = choose|k: int| 0 <= k < w.len() && w[k] == v[i];
        assert(passes(c, w[k], env, x));
    }
    if any_passes(c, w, env, x) {
        let i = choose|i: int| 0 <= i < w.len() && passes(c, #[trigger] w[i], env, x);
        assert(w.contains(w[i]));
        by_cost_same_members(v, w[i]);
        let k = choose|k: int| 0 <= k < v.len() && v[k] == w[i];
        assert(passes(c, v[k], env, x));
    }
}

/// An index files a node of its source under a key exactly if the node has
/// that key: a lookup finds every match, and nothing else.
pub proof fn index_finds_every_match(
    c: CtxV,
    key: AstV,
    ids: Seq<u32>,
    k: ScalarKeyV,
    id: u32,
)
    ensures
        filed(c, key, ids, k).contains(id) <==> ids.contains(id) && key_at(c, key, id) == Some(k),
    decreases ids.len(),
{
    if ids.len() > 0 {
        let less = ids.drop_last();
        let rest = filed(c, key, less, k);
        let all = filed(c, key, ids, k);
        index_finds_every_match(c, key, less, k, id);
        if rest.contains(id) {
            let i = choose|i: int| 0 <= i < rest.len() && rest[i] == id;
            assert(all[i] == id);
        }
        if less.contains(id) {
            let i = choose|i: int| 0 <= i < less.len() && less[i] == id;
            assert(ids[i] == id);
        }
        if ids.last() == id {
            assert(ids[ids.len() - 1] == id);
            if key_at(c, key, id) == Some(k) {
                assert(all.last() == id);
                assert(all[all.len() - 1] == id);
            }
        }
        if all.contains(id) {
            let i = choose|i: int| 0 <= i < all.len() && all[i] == id;
            if i < rest.len() {
                assert(rest[i] == id);
            }
        }
        if ids.contains(id) && ids.last() != id {
            let i = choose|i: int| 0 <= i < ids.len() && ids[i] == id;
            assert(less[i] == id);
        }
    }
}

/// Keys of several parts stand in a total order, from part `i` on.
proof fn keys_order(a: Seq<ScalarKeyV>, b: Seq<ScalarKeyV>, c: Seq<ScalarKeyV>, i: int)
    requires
        a.len() == b.len() == c.len(),
        0 <= i <= a.len(),
    ensures
        !keys_before(a, a, i),
        keys_before(a, b, i) && keys_before(b, c, i) ==> keys_before(a, c, i),
        (exists|k: int| i <= k < a.len() && a[k] != b[k]) ==> keys_before(a, b, i) || keys_before(
            b,
            a,
            i,
        ),
    decreases a.len() - i,
{
    if i < a.len() {
        keys_order(a, b, c, i + 1);
        key_order(a[i], b[i], c[i]);
        key_order(b[i], a[i], a[i]);
        key_order(a[i], b[i], a[i]);
        key_order(b[i], c[i], b[i]);
        if exists|k: int| i <= k < a.len() && a[k] != b[k] {
            if a[i] == b[i] {
                let k = choose|k: int| i <= k < a.len() && a[k] != b[k];
                assert(i + 1 <= k < a.len() && a[k] != b[k]);
            }
        }
    }
}

/// No keys come before themselves.
pub proof fn keys_order_once(a: Seq<ScalarKeyV>)
    ensures
        !keys_before(a, a, 0),
{
    keys_order(a, a, a, 0);
}

/// Keys before keys before others come before those.
pub proof fn keys_order_chain(a: Seq<ScalarKeyV>, b: Seq<ScalarKeyV>, c: Seq<ScalarKeyV>)
    requires
        a.len() == b.len() == c.len(),
        keys_before(a, b, 0),
        keys_before(b, c, 0),
    ensures
        keys_before(a, c, 0),
{
    keys_order(a, b, c, 0);
}

proof fn keys_differ(a: Seq<ScalarKeyV>, b: Seq<ScalarKeyV>)
    requires
        a.len() == b.len(),
        a != b,
    ensures
        keys_before(a, b, 0) || keys_before(b, a, 0),
{
    if forall|k: int| 0 <= k < a.len() ==> a[k] == b[k] {
        assert(a =~= b);
    }
    keys_order(a, b, b, 0);
}

/// The groups have `p` keys each, and stand in the order of their keys, no
/// two with the same.
pub open spec fn in_key_order(b: Seq<BucketV>, p: nat) -> bool {
    &&& forall|i: int| 0 <= i < b.len() ==> (#[trigger] b[i]).keys.len() == p
    &&& forall|i: int, j: int|
        0 <= i < j < b.len() ==> keys_before((#[trigger] b[i]).keys, (#[trigger] b[j]).keys, 0)
}

proof fn put_row_in_order(
    c: CtxV,
    ops: Seq<ReducerOp>,
    b: Seq<BucketV>,
    keys: Seq<ScalarKeyV>,
    labels: Seq<ValueV>,
    r: KeyedV,
)
    requires
        in_key_order(b, keys.len()),
    ensures
        in_key_order(put_row(c, ops, b, keys, labels, r), keys.len()),
        forall|i: int|
            0 <= i < put_row(c, ops, b, keys, labels, r).len() ==> (#[trigger] put_row(
                c,
                ops,
                b,
                keys,
                labels,
                r,
            )[i]).keys == keys || exists|k: int|
                0 <= k < b.len() && (#[trigger] b[k]).keys == put_row(
                    c,
                    ops,
                    b,
                    keys,
                    labels,
                    r,
                )[i].keys,
    decreases b.len(),
{
    let out = put_row(c, ops, b, keys, labels, r);
    if b.len() == 0 {
    } else if b.last().keys == keys {
        assert forall|i: int| 0 <= i < out.len() implies (#[trigger] out[i]).keys == b[i].keys by {}
        assert forall|i: int, j: int| 0 <= i < j < out.len() implies keys_before(
            (#[trigger] out[i]).keys,
            (#[trigger] out[j]).keys,
            0,
        ) by {
            assert(keys_before(b[i].keys, b[j].keys, 0));
        }
    } else if keys_before(b.last().keys, keys, 0) {
        assert forall|i: int, j: int| 0 <= i < j < out.len() implies keys_before(
            (#[trigger] out[i]).keys,
            (#[trigger] out[j]).keys,
            0,
        ) by {
            if j == b.len() {
                if i < b.len() - 1 {
                    assert(keys_before(b[i].keys, b[b.len() - 1].keys, 0));
                    keys_order(b[i].keys, b.last().keys, keys, 0);
                }
            } else {
                assert(keys_before(b[i].keys, b[j].keys, 0));
            }
        }
        assert forall|i: int| 0 <= i < out.len() implies (#[trigger] out[i]).keys == keys || exists|
            k: int,
        | 0 <= k < b.len() && (#[trigger] b[k]).keys == out[i].keys by {
            if i < b.len() {
                assert(out[i] == b[i]);
            }
        }
    } else {
        let less = b.drop_last();
        let inner = put_row(c, ops, less, keys, labels, r);
        put_row_in_order(c, ops, less, keys, labels, r);
        keys_differ(b.last().keys, keys);
        assert forall|i: int| 0 <= i < inner.len() implies keys_before(
            (#[trigger] inner[i]).keys,
            b.last().keys,
            0,
        ) by {
            if inner[i].keys != keys {
                let k = choose|k: int| 0 <= k < less.len() && (#[trigger] less[k]).keys == inner[i].keys;
                assert(keys_before(b[k].keys, b[b.len() - 1].keys, 0));
            }
        }
        assert forall|i: int| 0 <= i < out.len() implies (#[trigger] out[i]).keys == keys || exists|
            k: int,
        | 0 <= k < b.len() && (#[trigger] b[k]).keys == out[i].keys by {
            if i < inner.len() {
                assert(out[i] == inner[i]);
                if inner[i].keys != keys {
                    let k = choose|k: int|
                        0 <= k < less.len() && (#[trigger] less[k]).keys == inner[i].keys;
                    assert(b[k].keys == out[i].keys);
                }
            } else {
                assert(b[b.len() - 1].keys == out[i].keys);
            }
        }
    }
}

proof fn keys_to_len(k: Seq<Option<(ScalarKeyV, ValueV)>>, p: nat)
    ensures
        keys_to(k, p) matches Some(x) ==> x.0.len() == p,
    decreases p,
{
    if p > 0 {
        keys_to_len(k, (p - 1) as nat);
    }
}

/// The groups of an aggregate stand in the order of their keys, and no two
/// have the same: rows with equal keys are in one group.
pub proof fn groups_stand_in_order(c: CtxV, ops: Seq<ReducerOp>, rows: Seq<KeyedV>, p: nat)
    ensures
        in_key_order(grouped(c, ops, rows, p), p),
    decreases rows.len(),
{
    if rows.len() > 0 {
        groups_stand_in_order(c, ops, rows.drop_last(), p);
        keys_to_len(rows.last().keys, p);
        if let Some(k) = keys_to(rows.last().keys, p) {
            put_row_in_order(
                c,
                ops,
                grouped(c, ops, rows.drop_last(), p),
                k.0,
                k.1,
                rows.last(),
            );
        }
    }
}

proof fn quiet_costs_nothing(c: CtxV, e: AstV, env: EnvV, v: ValueV, k: Option<nat>)
    requires
        quiet(e),
    ensures
        cost(c, e, env, v, k) == nothing(),
{
    reveal(cost);
}

/// The rows of a source are counted as they are taken.
#[verifier::spinoff_prover]
pub proof fn sources_are_counted(c: CtxV, e: AstV, env: EnvV, v: ValueV, k: Option<nat>)
    requires
        quiet(e),
    ensures
        cost(c, AstV::Tap(Box::new(e)), env, v, k).rows == taken(k, run(c, e, env, v).rows.len()),
        cost(c, AstV::Tap(Box::new(e)), env, v, k).lookups == 0,
{
    quiet_costs_nothing(c, e, env, v, k);
    reveal(cost);
    reveal(quiet);
    let t = AstV::Tap(Box::new(e));
    assert(!quiet(t));
}

/// A limit behind a source takes one row more than it lets through, at most.
#[verifier::spinoff_prover]
pub proof fn limits_stop_the_source(c: CtxV, e: AstV, n: u64, env: EnvV, v: ValueV)
    requires
        quiet(e),
    ensures
        ({
            let source = AstV::Tap(Box::new(e));
            let size = run(c, e, env, v).rows.len();
            cost(
                c,
                AstV::Pipe(Box::new(source), Box::new(AstV::Limit(n))),
                env,
                v,
                None,
            ).rows == if size <= n {
                size
            } else {
                (n + 1) as nat
            }
        }),
{
    let source = AstV::Tap(Box::new(e));
    let limit = AstV::Limit(n);
    sources_are_counted(c, e, env, v, Some((n + 1) as nat));
    limit_costs_nothing(c, n, env, run(c, source, env, v));
    assert(!quiet(source)) by {
        reveal(quiet);
    }
    assert(!quiet(AstV::Pipe(Box::new(source), Box::new(limit)))) by {
        reveal(quiet);
        assert(quiet(source) == false);
    }
    assert(cost(c, AstV::Pipe(Box::new(source), Box::new(limit)), env, v, None) == plus(
        cost(c, source, env, v, Some((n + 1) as nat)),
        stage_cost(c, limit, env, run(c, source, env, v), None),
    )) by {
        env_of_stage(c, source, limit, env, v);
        asked_of(c, limit, run(c, source, env, v).rows, None);
        reveal(cost);
        reveal(stage_cost);
    }
}

/// A filter unbinds nothing: behind it, names stand as the last row left them
/// that was bound before it, be it dropped or not.
pub proof fn filters_keep_bindings(c: CtxV, l: AstV, p: AstV, env: EnvV, v: ValueV)
    ensures
        left(c, AstV::Pipe(Box::new(l), Box::new(AstV::Select(Box::new(p)))), env, v, None) == left(
            c,
            l,
            env,
            v,
            None,
        ),
{
    let r = AstV::Select(Box::new(p));
    left_of(c, AstV::Pipe(Box::new(l), Box::new(r)), env, v, None);
    asked_of(c, r, run(c, l, env, v).rows, None);
    pulled_step(c, r, run(c, l, env, v).rows, 0, None);
}

proof fn limit_costs_nothing(c: CtxV, n: u64, env: EnvV, s: StreamV)
    ensures
        stage_cost(c, AstV::Limit(n), env, s, None) == nothing(),
{
    reveal(stage_cost);
    reveal(quiet);
}

} // verus!
