//! What aggregate blocks are for: the reductions of all rows, or of the rows
//! of each group.
use vstd::prelude::*;

use super::super::ast::{AggGroupKeyV, AggGroupV, AggOutputV, AggReductionV, AstV, ReducerOp};
use super::super::index::ScalarKeyV;
use super::super::value::ValueV;
use super::joining::part_at;
use super::laws::{groups_stand_in_order, passes};
use super::model::{
    all_of, group_lists, grouped, key_columns, key_of, key_text, keys_before, keys_to, named_output,
    no_rows, node_ids, non_null, one, ops_of, put_row, slots_of, values_of, BucketV, CtxV, EnvV,
    KeyedV, Missing, RowV, StreamV,
};
use super::reducing::{
    groups_hold_their_rows, has_group, has_keys, is_group_of, key_is, nodes_of, reduction, seen_of,
    some_row,
};
use super::semantics::{
    after, agg_row, agg_rows, agg_table, bucket_rows, by_row, by_table, group_keys, keyed, no_key,
    output, output_rows, outputs, roll_keys, roll_names, rolled_up, run, seen_by, seen_by_all,
    with_slots,
};

verus! {

/// What a reduction sees of a row: nothing where its condition does not hold;
/// else the row itself, or the values of its expression. A count does not see
/// null.
pub open spec fn seen_in(c: CtxV, r: AggReductionV, row: RowV) -> Seq<ValueV> {
    if r.where_pred matches Some(p) && !passes(c, *p, row.env, row.value) {
        Seq::empty()
    } else {
        match r.value {
            None => seq![row.value],
            Some(x) => {
                let v = values_of(run(c, *x, row.env, row.value).rows);
                if r.op == ReducerOp::Count {
                    v.filter(|y: ValueV| !(y is Null))
                } else {
                    v
                }
            },
        }
    }
}

/// A reduction runs into no error on a row.
pub open spec fn sees(c: CtxV, r: AggReductionV, row: RowV) -> bool {
    &&& r.where_pred matches Some(p) ==> run(c, *p, row.env, row.value).err is None
    &&& r.value matches Some(x) ==> run(c, *x, row.env, row.value).err is None
}

/// What a reduction sees of all rows, in their order.
pub open spec fn seen_in_all(c: CtxV, r: AggReductionV, rows: Seq<RowV>) -> Seq<ValueV>
    decreases rows.len(),
{
    if rows.len() == 0 {
        Seq::empty()
    } else {
        seen_in_all(c, r, rows.drop_last()) + seen_in(c, r, rows.last())
    }
}

proof fn non_null_filters(v: Seq<ValueV>)
    ensures
        non_null(v) == v.filter(|y: ValueV| !(y is Null)),
    decreases v.len(),
{
    reveal(Seq::filter);
    if v.len() > 0 {
        non_null_filters(v.drop_last());
    } else {
        assert(v =~= Seq::empty());
    }
}

#[verifier::spinoff_prover]
proof fn one_sees(c: CtxV, r: AggReductionV, row: RowV)
    requires
        sees(c, r, row),
    ensures
        seen_by(c, r, row) == Ok::<Seq<ValueV>, Missing>(seen_in(c, r, row)),
{
    if let Some(x) = r.value {
        non_null_filters(values_of(run(c, *x, row.env, row.value).rows));
    }
    reveal(seen_by);
    reveal(run);
}

#[verifier::spinoff_prover]
proof fn all_see(c: CtxV, r: Seq<AggReductionV>, row: RowV)
    requires
        forall|i: int| 0 <= i < r.len() ==> sees(c, #[trigger] r[i], row),
    ensures
        seen_by_all(c, r, row) == Ok::<Seq<Seq<ValueV>>, Missing>(
            Seq::new(r.len(), |i: int| seen_in(c, r[i], row)),
        ),
    decreases r.len(),
{
    let want = Seq::new(r.len(), |i: int| seen_in(c, r[i], row));
    if r.len() == 0 {
        reveal(seen_by_all);
        assert(want =~= Seq::empty());
    } else {
        let less = r.drop_last();
        assert forall|i: int| 0 <= i < less.len() implies sees(c, #[trigger] less[i], row) by {
            assert(less[i] == r[i]);
        }
        all_see(c, less, row);
        assert(sees(c, r[r.len() - 1], row));
        one_sees(c, r.last(), row);
        let rest = Seq::new(less.len(), |i: int| seen_in(c, less[i], row));
        assert(seen_by_all(c, r, row) == Ok::<Seq<Seq<ValueV>>, Missing>(
            rest.push(seen_in(c, r.last(), row)),
        )) by {
            reveal_with_fuel(seen_by_all, 2);
            reveal(seen_by);
        }
        assert(rest.push(seen_in(c, r.last(), row)) =~= want);
    }
}

/// No reduction runs into an error on any row.
pub open spec fn all_sound(c: CtxV, r: Seq<AggReductionV>, rows: Seq<RowV>) -> bool {
    forall|i: int, j: int|
        0 <= i < r.len() && 0 <= j < rows.len() ==> sees(c, #[trigger] r[i], #[trigger] rows[j])
}

/// The row of a table that a row of the stream becomes.
pub open spec fn table_row(
    c: CtxV,
    keys: Seq<Option<(ScalarKeyV, ValueV)>>,
    r: Seq<AggReductionV>,
    row: RowV,
) -> KeyedV {
    KeyedV { keys, inputs: Seq::new(r.len(), |i: int| seen_in(c, r[i], row)), nodes: Seq::empty() }
}

#[verifier::spinoff_prover]
proof fn table_step(c: CtxV, a: AstV, rows: Seq<RowV>)
    ensures
        agg_table(c, a, rows) == if rows.len() == 0 {
            Ok::<Seq<KeyedV>, Missing>(Seq::empty())
        } else {
            match agg_table(c, a, rows.drop_last()) {
                Err(e) => Err(e),
                Ok(rest) => match agg_row(c, a, rows.last()) {
                    Err(e) => Err(e),
                    Ok(k) => Ok(rest.push(k)),
                },
            }
        },
{
    reveal_with_fuel(agg_table, 2);
    reveal(agg_row);
}

#[verifier::spinoff_prover]
pub proof fn plain_table(
    c: CtxV,
    r: Seq<AggReductionV>,
    o: Seq<(Seq<char>, AggOutputV)>,
    rows: Seq<RowV>,
)
    requires
        all_sound(c, r, rows),
    ensures
        agg_table(
            c,
            AstV::AggregateBlock { group: None, reductions: r, outputs: o },
            rows,
        ) == Ok::<Seq<KeyedV>, Missing>(
            Seq::new(rows.len(), |j: int| table_row(c, Seq::empty(), r, rows[j])),
        ),
    decreases rows.len(),
{
    let a = AstV::AggregateBlock { group: None, reductions: r, outputs: o };
    let want = Seq::new(rows.len(), |j: int| table_row(c, Seq::empty(), r, rows[j]));
    table_step(c, a, rows);
    if rows.len() == 0 {
        assert(want =~= Seq::empty());
    } else {
        let less = rows.drop_last();
        assert forall|i: int, j: int| 0 <= i < r.len() && 0 <= j < less.len() implies sees(
            c,
            #[trigger] r[i],
            #[trigger] less[j],
        ) by {
            assert(less[j] == rows[j]);
        }
        plain_table(c, r, o, less);
        let row = rows[rows.len() - 1];
        all_see(c, r, row);
        assert(agg_row(c, a, row) == Ok::<KeyedV, Missing>(
            table_row(c, Seq::empty(), r, row),
        )) by {
            reveal(agg_row);
            reveal(seen_by_all);
        }
        let rest = Seq::new(less.len(), |j: int| table_row(c, Seq::empty(), r, less[j]));
        assert(rest.push(table_row(c, Seq::empty(), r, row)) =~= want);
    }
}

proof fn seen_of_all(c: CtxV, r: Seq<AggReductionV>, rows: Seq<RowV>, i: int)
    requires
        0 <= i < r.len(),
    ensures
        seen_of(
            Seq::new(rows.len(), |j: int| table_row(c, Seq::empty(), r, rows[j])),
            Seq::empty(),
            i,
        ) == seen_in_all(c, r[i], rows),
    decreases rows.len(),
{
    let t = Seq::new(rows.len(), |j: int| table_row(c, Seq::empty(), r, rows[j]));
    if rows.len() > 0 {
        let less = rows.drop_last();
        seen_of_all(c, r, less, i);
        assert(t.drop_last() =~= Seq::new(
            less.len(),
            |j: int| table_row(c, Seq::empty(), r, less[j]),
        ));
        assert(t.last() == table_row(c, Seq::empty(), r, rows.last()));
    }
}

/// The reductions of all rows, each of what it sees of them.
pub open spec fn whole_slots(c: CtxV, r: Seq<AggReductionV>, rows: Seq<RowV>) -> Seq<Option<u64>> {
    Seq::new(r.len(), |i: int| reduction(c, r[i].op, seen_in_all(c, r[i], rows)))
}

/// Without groups, an aggregate block gives its outputs once, over the
/// reductions of all rows.
#[verifier::spinoff_prover]
pub proof fn aggregates_reduce_all_rows(
    c: CtxV,
    r: Seq<AggReductionV>,
    o: Seq<(Seq<char>, AggOutputV)>,
    env: EnvV,
    s: StreamV,
)
    requires
        s.err is None,
        all_sound(c, r, s.rows),
    ensures
        after(
            c,
            AstV::AggregateBlock { group: None, reductions: r, outputs: o },
            env,
            s,
        ) == output_rows(c, o, with_slots(env, whole_slots(c, r, s.rows)), env),
{
    let a = AstV::AggregateBlock { group: None, reductions: r, outputs: o };
    let rows = s.rows;
    let t = Seq::new(rows.len(), |j: int| table_row(c, Seq::empty(), r, rows[j]));
    let ops = ops_of(r);
    plain_table(c, r, o, rows);
    groups_hold_their_rows(c, ops, t, 0);
    let b = grouped(c, ops, t, 0)[0];
    assert(is_group_of(c, ops, t, b));
    assert(b.keys =~= Seq::empty());
    assert forall|i: int| 0 <= i < r.len() implies slots_of(c, ops, b)[i] == whole_slots(
        c,
        r,
        rows,
    )[i] by {
        seen_of_all(c, r, rows, i);
        assert(b.states[i] == super::model::consumed_all(
            c,
            ops[i],
            super::model::fresh_state(),
            seen_of(t, b.keys, i),
        ));
    }
    assert(slots_of(c, ops, b) =~= whole_slots(c, r, rows));
    assert(after(c, a, env, s) == agg_rows(c, None, ops, o, t, env)) by {
        reveal(after);
        reveal(agg_table);
        reveal(agg_rows);
    }
    reveal(agg_rows);
    reveal(output_rows);
}

/// A reduction in an output is the value of its slot, null where it saw
/// nothing.
pub proof fn slots_hold_the_reductions(c: CtxV, i: usize, env: EnvV, v: ValueV)
    requires
        i < env.slots.len(),
    ensures
        run(c, AstV::ReducerSlot(i), env, v) == one(
            env,
            match env.slots[i as int] {
                Some(x) => ValueV::Number(x),
                None => ValueV::Null,
            },
        ),
{
    reveal(run);
}

/// The value of an output: that of its expression, or of its default where
/// that gives null or nothing.
pub open spec fn output_value(c: CtxV, e: AstV, default: Option<Box<AstV>>, env: EnvV) -> ValueV {
    match part_at(c, e, env, ValueV::Null) {
        Some(x) => if x is Null {
            default_value(c, default, env)
        } else {
            x
        },
        None => default_value(c, default, env),
    }
}

pub open spec fn default_value(c: CtxV, default: Option<Box<AstV>>, env: EnvV) -> ValueV {
    match default {
        Some(d) => match part_at(c, *d, env, ValueV::Null) {
            Some(y) => y,
            None => ValueV::Null,
        },
        None => ValueV::Null,
    }
}

/// An output is the value of its expression, with its default in the place of
/// null.
#[verifier::spinoff_prover]
pub proof fn outputs_fall_back_on_their_default(
    c: CtxV,
    e: AstV,
    default: Option<Box<AstV>>,
    env: EnvV,
)
    requires
        run(c, e, env, ValueV::Null).err is None,
        default matches Some(d) ==> run(c, *d, env, ValueV::Null).err is None,
    ensures
        output(c, AggOutputV::Leaf { expr: Box::new(e), default }, env) == Ok::<ValueV, Missing>(
            output_value(c, e, default, env),
        ),
{
    reveal(output);
    reveal(run);
}

/// A value under a name: numbers and null as a reduction of that name.
pub open spec fn under_name(name: Seq<char>, v: ValueV) -> ValueV {
    match v {
        ValueV::Number(x) => ValueV::Group { key: name, n: Some(x) },
        ValueV::Null => ValueV::Group { key: name, n: None },
        _ => ValueV::NamedValue { name, value: Box::new(v) },
    }
}

/// A row for each output, under its name.
pub open spec fn named_rows(
    o: Seq<(Seq<char>, AggOutputV)>,
    values: Seq<ValueV>,
    env: EnvV,
) -> Seq<RowV> {
    Seq::new(o.len(), |i: int| RowV { env, value: under_name(o[i].0, values[i]) })
}

/// A block without groups gives a row for each output, under its name.
#[verifier::spinoff_prover]
pub proof fn outputs_come_under_their_names(
    c: CtxV,
    o: Seq<(Seq<char>, AggOutputV)>,
    values: Seq<ValueV>,
    inside: EnvV,
    env: EnvV,
)
    requires
        values.len() == o.len(),
        forall|i: int|
            0 <= i < o.len() ==> output(c, (#[trigger] o[i]).1, inside) == Ok::<ValueV, Missing>(
                values[i],
            ),
    ensures
        output_rows(c, o, inside, env) == (StreamV {
            rows: named_rows(o, values, env),
            err: None,
        }),
    decreases o.len(),
{
    if o.len() == 0 {
        reveal(output_rows);
        assert(output_rows(c, o, inside, env).rows =~= named_rows(o, values, env));
    } else {
        let less = o.drop_last();
        assert forall|i: int| 0 <= i < less.len() implies output(
            c,
            (#[trigger] less[i]).1,
            inside,
        ) == Ok::<ValueV, Missing>(values.drop_last()[i]) by {
            assert(less[i] == o[i]);
        }
        outputs_come_under_their_names(c, less, values.drop_last(), inside, env);
        assert(output(c, o[o.len() - 1].1, inside) == Ok::<ValueV, Missing>(values.last()));
        let s = output_rows(c, less, inside, env);
        assert(output_rows(c, o, inside, env) == (StreamV {
            rows: s.rows.push(RowV { env, value: named_output(o.last().0, values.last()) }),
            err: None,
        })) by {
            reveal_with_fuel(output_rows, 2);
            reveal(output);
        }
        assert(output_rows(c, o, inside, env).rows =~= named_rows(o, values, env));
    }
}

/// The key of a row: that of the first value of the expression.
pub open spec fn row_key(c: CtxV, e: AstV, row: RowV) -> Option<ScalarKeyV> {
    match part_at(c, e, row.env, row.value) {
        Some(v) => key_of(c.doc, c.n, v),
        None => None,
    }
}

/// What a reduction sees of the rows with this key, in their order.
pub open spec fn seen_with(
    c: CtxV,
    r: AggReductionV,
    e: AstV,
    k: ScalarKeyV,
    rows: Seq<RowV>,
) -> Seq<ValueV>
    decreases rows.len(),
{
    if rows.len() == 0 {
        Seq::empty()
    } else if row_key(c, e, rows.last()) == Some(k) {
        seen_with(c, r, e, k, rows.drop_last()) + seen_in(c, r, rows.last())
    } else {
        seen_with(c, r, e, k, rows.drop_last())
    }
}

/// The reductions of the rows with this key.
pub open spec fn group_slots(
    c: CtxV,
    r: Seq<AggReductionV>,
    e: AstV,
    k: ScalarKeyV,
    rows: Seq<RowV>,
) -> Seq<Option<u64>> {
    Seq::new(r.len(), |i: int| reduction(c, r[i].op, seen_with(c, r[i], e, k, rows)))
}

/// The row of the table, with one key.
pub open spec fn keyed_row(c: CtxV, e: AstV, r: Seq<AggReductionV>, row: RowV) -> KeyedV {
    let k = keyed(c, part_at(c, e, row.env, row.value));
    if k is None {
        no_key()
    } else {
        table_row(c, seq![k], r, row)
    }
}

pub open spec fn keyed_rows(c: CtxV, e: AstV, r: Seq<AggReductionV>, rows: Seq<RowV>) -> Seq<KeyedV> {
    Seq::new(rows.len(), |j: int| keyed_row(c, e, r, rows[j]))
}

#[verifier::spinoff_prover]
pub proof fn single_table(
    c: CtxV,
    name: Seq<char>,
    e: AstV,
    r: Seq<AggReductionV>,
    o: Seq<(Seq<char>, AggOutputV)>,
    rows: Seq<RowV>,
)
    requires
        all_sound(c, r, rows),
        forall|j: int|
            0 <= j < rows.len() ==> run(c, e, (#[trigger] rows[j]).env, rows[j].value).err is None,
    ensures
        agg_table(
            c,
            AstV::AggregateBlock {
                group: Some(AggGroupV::Single { name, key: Box::new(e) }),
                reductions: r,
                outputs: o,
            },
            rows,
        ) == Ok::<Seq<KeyedV>, Missing>(keyed_rows(c, e, r, rows)),
    decreases rows.len(),
{
    let g = AggGroupV::Single { name, key: Box::new(e) };
    let a = AstV::AggregateBlock { group: Some(g), reductions: r, outputs: o };
    table_step(c, a, rows);
    if rows.len() == 0 {
        assert(keyed_rows(c, e, r, rows) =~= Seq::empty());
    } else {
        let less = rows.drop_last();
        assert forall|i: int, j: int| 0 <= i < r.len() && 0 <= j < less.len() implies sees(
            c,
            #[trigger] r[i],
            #[trigger] less[j],
        ) by {
            assert(less[j] == rows[j]);
        }
        assert forall|j: int| 0 <= j < less.len() implies run(
            c,
            e,
            (#[trigger] less[j]).env,
            less[j].value,
        ).err is None by {
            assert(less[j] == rows[j]);
        }
        single_table(c, name, e, r, o, less);
        let row = rows[rows.len() - 1];
        all_see(c, r, row);
        let s = run(c, e, row.env, row.value);
        let k = keyed(c, part_at(c, e, row.env, row.value));
        assert(group_keys(c, g, row) == Ok::<Seq<Option<(ScalarKeyV, ValueV)>>, Missing>(
            seq![k],
        )) by {
            reveal(group_keys);
            reveal(run);
        }
        assert(agg_row(c, a, row) == Ok::<KeyedV, Missing>(keyed_row(c, e, r, row))) by {
            reveal(agg_row);
            reveal(group_keys);
            reveal(seen_by_all);
            assert(seq![k][0] == k);
        }
        assert(keyed_rows(c, e, r, less).push(keyed_row(c, e, r, row)) =~= keyed_rows(
            c,
            e,
            r,
            rows,
        ));
    }
}

/// A row of the table has a key exactly if the row has it.
proof fn keyed_row_keys(c: CtxV, e: AstV, r: Seq<AggReductionV>, row: RowV, k: Seq<ScalarKeyV>)
    requires
        k.len() == 1,
    ensures
        has_keys(keyed_row(c, e, r, row), k) <==> row_key(c, e, row) == Some(k[0]),
{
    let x = keyed_row(c, e, r, row);
    if has_keys(x, k) {
        assert(key_is(x, 0, k[0]));
    }
    if row_key(c, e, row) == Some(k[0]) {
        assert forall|i: int| 0 <= i < k.len() implies key_is(x, i, #[trigger] k[i]) by {
            assert(i == 0);
        }
    }
}

proof fn seen_of_group(
    c: CtxV,
    e: AstV,
    r: Seq<AggReductionV>,
    rows: Seq<RowV>,
    k: Seq<ScalarKeyV>,
    i: int,
)
    requires
        k.len() == 1,
        0 <= i < r.len(),
    ensures
        seen_of(keyed_rows(c, e, r, rows), k, i) == seen_with(c, r[i], e, k[0], rows),
    decreases rows.len(),
{
    let t = keyed_rows(c, e, r, rows);
    if rows.len() > 0 {
        let less = rows.drop_last();
        seen_of_group(c, e, r, less, k, i);
        assert(t.drop_last() =~= keyed_rows(c, e, r, less));
        assert(t.last() == keyed_row(c, e, r, rows.last()));
        keyed_row_keys(c, e, r, rows.last(), k);
    }
}

/// The value that stands for a group: one with the group's key.
pub open spec fn labelled(c: CtxV, b: BucketV) -> bool {
    b.labels.len() == 1 && b.keys.len() == 1 && key_of(c.doc, c.n, b.labels[0]) == Some(b.keys[0])
}

proof fn put_row_labels(
    c: CtxV,
    ops: Seq<ReducerOp>,
    b: Seq<BucketV>,
    keys: Seq<ScalarKeyV>,
    labels: Seq<ValueV>,
    r: KeyedV,
)
    requires
        forall|j: int| 0 <= j < b.len() ==> labelled(c, #[trigger] b[j]),
        labels.len() == 1,
        keys.len() == 1,
        key_of(c.doc, c.n, labels[0]) == Some(keys[0]),
    ensures
        forall|j: int|
            0 <= j < put_row(c, ops, b, keys, labels, r).len() ==> labelled(
                c,
                #[trigger] put_row(c, ops, b, keys, labels, r)[j],
            ),
    decreases b.len(),
{
    let out = put_row(c, ops, b, keys, labels, r);
    if b.len() > 0 {
        assert(labelled(c, b[b.len() - 1]));
        let less = b.drop_last();
        assert forall|j: int| 0 <= j < less.len() implies labelled(c, #[trigger] less[j]) by {
            assert(less[j] == b[j]);
        }
        if b.last().keys == keys || keys_before(b.last().keys, keys, 0) {
            assert forall|j: int| 0 <= j < out.len() implies labelled(c, #[trigger] out[j]) by {
                if j < b.len() {
                    assert(labelled(c, b[j]));
                }
            }
        } else {
            put_row_labels(c, ops, less, keys, labels, r);
            let inner = put_row(c, ops, less, keys, labels, r);
            assert forall|j: int| 0 <= j < out.len() implies labelled(c, #[trigger] out[j]) by {
                if j < inner.len() {
                    assert(out[j] == inner[j]);
                }
            }
        }
    }
}

proof fn groups_labelled(
    c: CtxV,
    ops: Seq<ReducerOp>,
    e: AstV,
    r: Seq<AggReductionV>,
    rows: Seq<RowV>,
)
    ensures
        forall|j: int|
            0 <= j < grouped(c, ops, keyed_rows(c, e, r, rows), 1).len() ==> labelled(
                c,
                #[trigger] grouped(c, ops, keyed_rows(c, e, r, rows), 1)[j],
            ),
    decreases rows.len(),
{
    let t = keyed_rows(c, e, r, rows);
    if rows.len() > 0 {
        let less = rows.drop_last();
        groups_labelled(c, ops, e, r, less);
        assert(t.drop_last() =~= keyed_rows(c, e, r, less));
        let x = t.last();
        assert(x == keyed_row(c, e, r, rows.last()));
        assert(keys_to(x.keys, 0) == Some((Seq::<ScalarKeyV>::empty(), Seq::<ValueV>::empty())));
        let old = grouped(c, ops, t.drop_last(), 1);
        match keys_to(x.keys, 1) {
            Some(k) => {
                assert(x.keys[0] is Some);
                assert(k.0 =~= seq![(x.keys[0]->0).0]);
                assert(k.1 =~= seq![(x.keys[0]->0).1]);
                put_row_labels(c, ops, old, k.0, k.1, x);
                assert(grouped(c, ops, t, 1) == put_row(c, ops, old, k.0, k.1, x));
            },
            None => {
                assert(grouped(c, ops, t, 1) == old);
            },
        }
    }
}

/// The rows of a grouped block belong to the groups of its rows: the key
/// column first, then the outputs over the reductions of the rows with that
/// key.
pub open spec fn rows_of_groups(
    c: CtxV,
    name: Seq<char>,
    e: AstV,
    r: Seq<AggReductionV>,
    o: Seq<(Seq<char>, AggOutputV)>,
    rows: Seq<RowV>,
    out: Seq<RowV>,
    keys: Seq<ScalarKeyV>,
    env: EnvV,
) -> bool {
    &&& out.len() == keys.len()
    &&& forall|j: int|
        0 <= j < out.len() ==> row_of_group(c, name, e, r, o, rows, #[trigger] out[j], keys[j], env)
    &&& forall|i: int, j: int| 0 <= i < j < keys.len() ==> #[trigger] keys[i] != #[trigger] keys[j]
    &&& forall|i: int|
        0 <= i < rows.len() ==> (row_key(c, e, #[trigger] rows[i]) matches Some(k) ==> keys.contains(
            k,
        ))
}

pub open spec fn row_of_group(
    c: CtxV,
    name: Seq<char>,
    e: AstV,
    r: Seq<AggReductionV>,
    o: Seq<(Seq<char>, AggOutputV)>,
    rows: Seq<RowV>,
    row: RowV,
    k: ScalarKeyV,
    env: EnvV,
) -> bool {
    exists|label: ValueV|
        {
            &&& #[trigger] key_of(c.doc, c.n, label) == Some(k)
            &&& outputs(c, o, with_slots(env, group_slots(c, r, e, k, rows))) is Ok
            &&& row == RowV {
                env,
                value: ValueV::BucketRow(
                    seq![(name, label)] + outputs(
                        c,
                        o,
                        with_slots(env, group_slots(c, r, e, k, rows)),
                    )->Ok_0,
                ),
            }
        }
}

#[verifier::spinoff_prover]
pub proof fn bucket_rows_step(
    c: CtxV,
    o: Seq<(Seq<char>, AggOutputV)>,
    names: Seq<Seq<char>>,
    ops: Seq<ReducerOp>,
    b: Seq<BucketV>,
    env: EnvV,
)
    ensures
        bucket_rows(c, o, names, ops, b, env) == if b.len() == 0 {
            no_rows()
        } else {
            let s = bucket_rows(c, o, names, ops, b.drop_last(), env);
            match s.err {
                Some(e) => s,
                None => match outputs(c, o, with_slots(env, slots_of(c, ops, b.last()))) {
                    Err(e) => StreamV { rows: s.rows, err: Some(e) },
                    Ok(f) => StreamV {
                        rows: s.rows.push(
                            RowV {
                                env,
                                value: ValueV::BucketRow(key_columns(names, b.last()) + f),
                            },
                        ),
                        err: None,
                    },
                },
            }
        },
{
    reveal_with_fuel(bucket_rows, 2);
    reveal(outputs);
}

proof fn bucket_rows_each(
    c: CtxV,
    o: Seq<(Seq<char>, AggOutputV)>,
    names: Seq<Seq<char>>,
    ops: Seq<ReducerOp>,
    b: Seq<BucketV>,
    env: EnvV,
)
    requires
        bucket_rows(c, o, names, ops, b, env).err is None,
    ensures
        bucket_rows(c, o, names, ops, b, env).rows.len() == b.len(),
        forall|j: int|
            0 <= j < b.len() ==> outputs(
                c,
                o,
                with_slots(env, slots_of(c, ops, #[trigger] b[j])),
            ) is Ok && bucket_rows(c, o, names, ops, b, env).rows[j] == (RowV {
                env,
                value: ValueV::BucketRow(
                    key_columns(names, b[j]) + outputs(
                        c,
                        o,
                        with_slots(env, slots_of(c, ops, b[j])),
                    )->Ok_0,
                ),
            }),
    decreases b.len(),
{
    bucket_rows_step(c, o, names, ops, b, env);
    if b.len() > 0 {
        let less = b.drop_last();
        bucket_rows_each(c, o, names, ops, less, env);
        assert forall|j: int| 0 <= j < b.len() implies outputs(
            c,
            o,
            with_slots(env, slots_of(c, ops, #[trigger] b[j])),
        ) is Ok && bucket_rows(c, o, names, ops, b, env).rows[j] == (RowV {
            env,
            value: ValueV::BucketRow(
                key_columns(names, b[j]) + outputs(
                    c,
                    o,
                    with_slots(env, slots_of(c, ops, b[j])),
                )->Ok_0,
            ),
        }) by {
            if j < less.len() {
                assert(less[j] == b[j]);
            }
        }
    }
}

/// With a key, an aggregate block gives a row for each key that a row has: the
/// key, and the outputs over the reductions of exactly the rows with it.
#[verifier::spinoff_prover]
pub proof fn aggregates_reduce_each_group(
    c: CtxV,
    name: Seq<char>,
    e: AstV,
    r: Seq<AggReductionV>,
    o: Seq<(Seq<char>, AggOutputV)>,
    env: EnvV,
    s: StreamV,
)
    requires
        s.err is None,
        all_sound(c, r, s.rows),
        forall|j: int|
            0 <= j < s.rows.len() ==> run(c, e, (#[trigger] s.rows[j]).env, s.rows[j].value).err is None,
        after(
            c,
            AstV::AggregateBlock {
                group: Some(AggGroupV::Single { name, key: Box::new(e) }),
                reductions: r,
                outputs: o,
            },
            env,
            s,
        ).err is None,
    ensures
        exists|keys: Seq<ScalarKeyV>|
            rows_of_groups(
                c,
                name,
                e,
                r,
                o,
                s.rows,
                after(
                    c,
                    AstV::AggregateBlock {
                        group: Some(AggGroupV::Single { name, key: Box::new(e) }),
                        reductions: r,
                        outputs: o,
                    },
                    env,
                    s,
                ).rows,
                keys,
                env,
            ),
{
    let rows = s.rows;
    let g = AggGroupV::Single { name, key: Box::new(e) };
    let a = AstV::AggregateBlock { group: Some(g), reductions: r, outputs: o };
    let ops = ops_of(r);
    let t = keyed_rows(c, e, r, rows);
    let b = grouped(c, ops, t, 1);
    single_table(c, name, e, r, o, rows);
    groups_hold_their_rows(c, ops, t, 1);
    groups_stand_in_order(c, ops, t, 1);
    groups_labelled(c, ops, e, r, rows);
    assert(after(c, a, env, s) == bucket_rows(c, o, seq![name], ops, b, env)) by {
        assert(after(c, a, env, s) == agg_rows(c, Some(g), ops, o, t, env)) by {
            reveal(after);
            reveal(agg_table);
            reveal(agg_rows);
        }
        reveal(agg_rows);
        reveal(bucket_rows);
    }
    let out = after(c, a, env, s).rows;
    bucket_rows_each(c, o, seq![name], ops, b, env);
    let keys = Seq::new(b.len(), |j: int| b[j].keys[0]);
    assert forall|j: int| 0 <= j < out.len() implies row_of_group(
        c,
        name,
        e,
        r,
        o,
        rows,
        #[trigger] out[j],
        keys[j],
        env,
    ) by {
        let x = b[j];
        assert(is_group_of(c, ops, t, x));
        assert(labelled(c, x));
        assert forall|i: int| 0 <= i < r.len() implies slots_of(c, ops, x)[i] == group_slots(
            c,
            r,
            e,
            keys[j],
            rows,
        )[i] by {
            seen_of_group(c, e, r, rows, x.keys, i);
            assert(x.states[i] == super::model::consumed_all(
                c,
                ops[i],
                super::model::fresh_state(),
                seen_of(t, x.keys, i),
            ));
        }
        assert(slots_of(c, ops, x) =~= group_slots(c, r, e, keys[j], rows));
        assert(key_columns(seq![name], x) =~= seq![(name, x.labels[0])]);
        assert(key_of(c.doc, c.n, x.labels[0]) == Some(keys[j]));
    }
    assert forall|i: int, j: int| 0 <= i < j < keys.len() implies #[trigger] keys[i]
        != #[trigger] keys[j] by {
        assert(keys_before(b[i].keys, b[j].keys, 0));
        if keys[i] == keys[j] {
            assert(b[i].keys =~= b[j].keys);
            super::laws::keys_order_once(b[i].keys);
        }
    }
    assert forall|i: int| 0 <= i < rows.len() implies (row_key(c, e, #[trigger] rows[i]) matches Some(
        k,
    ) ==> keys.contains(k)) by {
        if let Some(k) = row_key(c, e, rows[i]) {
            keyed_row_keys(c, e, r, rows[i], seq![k]);
            assert(t[i] == keyed_row(c, e, r, rows[i]));
            assert(has_keys(t[i], seq![k]));
            assert(some_row(t, seq![k]));
            assert(has_group(b, seq![k]));
            let j = choose|j: int| 0 <= j < b.len() && (#[trigger] b[j]).keys == seq![k];
            assert(keys[j] == k);
        }
    }
    assert(rows_of_groups(c, name, e, r, o, rows, out, keys, env));
}

/// The keys of a row in a rollup.
pub open spec fn roll_values(c: CtxV, k: Seq<AggGroupKeyV>, row: RowV) -> Seq<
    Option<(ScalarKeyV, ValueV)>,
> {
    Seq::new(k.len(), |i: int| keyed(c, part_at(c, *k[i].key, row.env, row.value)))
}

/// No key of a rollup runs into an error on any row.
pub open spec fn roll_sound(c: CtxV, k: Seq<AggGroupKeyV>, rows: Seq<RowV>) -> bool {
    forall|i: int, j: int|
        0 <= i < k.len() && 0 <= j < rows.len() ==> run(
            c,
            *(#[trigger] k[i]).key,
            (#[trigger] rows[j]).env,
            rows[j].value,
        ).err is None
}

#[verifier::spinoff_prover]
proof fn roll_keys_are_values(c: CtxV, k: Seq<AggGroupKeyV>, row: RowV)
    requires
        roll_sound(c, k, seq![row]),
    ensures
        roll_keys(c, k, row) == Ok::<Seq<Option<(ScalarKeyV, ValueV)>>, Missing>(
            roll_values(c, k, row),
        ),
    decreases k.len(),
{
    if k.len() == 0 {
        reveal(roll_keys);
        assert(roll_values(c, k, row) =~= Seq::empty());
    } else {
        let less = k.drop_last();
        let one_row = seq![row];
        assert(one_row[0] == row);
        assert forall|i: int, j: int| 0 <= i < less.len() && 0 <= j < one_row.len() implies run(
            c,
            *(#[trigger] less[i]).key,
            (#[trigger] one_row[j]).env,
            one_row[j].value,
        ).err is None by {
            assert(less[i] == k[i]);
        }
        roll_keys_are_values(c, less, row);
        assert(run(c, *k[k.len() - 1].key, one_row[0].env, one_row[0].value).err is None);
        let rest = roll_values(c, less, row);
        let last = keyed(c, part_at(c, *k.last().key, row.env, row.value));
        assert(roll_keys(c, k, row) == Ok::<Seq<Option<(ScalarKeyV, ValueV)>>, Missing>(
            rest.push(last),
        )) by {
            reveal_with_fuel(roll_keys, 2);
            reveal(run);
        }
        assert(rest.push(last) =~= roll_values(c, k, row));
    }
}

/// The table of a rollup.
pub open spec fn roll_rows(
    c: CtxV,
    k: Seq<AggGroupKeyV>,
    r: Seq<AggReductionV>,
    rows: Seq<RowV>,
) -> Seq<KeyedV> {
    Seq::new(rows.len(), |j: int| table_row(c, roll_values(c, k, rows[j]), r, rows[j]))
}

#[verifier::spinoff_prover]
pub proof fn roll_table(
    c: CtxV,
    k: Seq<AggGroupKeyV>,
    r: Seq<AggReductionV>,
    o: Seq<(Seq<char>, AggOutputV)>,
    rows: Seq<RowV>,
)
    requires
        all_sound(c, r, rows),
        roll_sound(c, k, rows),
    ensures
        agg_table(
            c,
            AstV::AggregateBlock { group: Some(AggGroupV::Rollup(k)), reductions: r, outputs: o },
            rows,
        ) == Ok::<Seq<KeyedV>, Missing>(roll_rows(c, k, r, rows)),
    decreases rows.len(),
{
    let g = AggGroupV::Rollup(k);
    let a = AstV::AggregateBlock { group: Some(g), reductions: r, outputs: o };
    table_step(c, a, rows);
    if rows.len() == 0 {
        assert(roll_rows(c, k, r, rows) =~= Seq::empty());
    } else {
        let less = rows.drop_last();
        assert forall|i: int, j: int| 0 <= i < r.len() && 0 <= j < less.len() implies sees(
            c,
            #[trigger] r[i],
            #[trigger] less[j],
        ) by {
            assert(less[j] == rows[j]);
        }
        assert forall|i: int, j: int| 0 <= i < k.len() && 0 <= j < less.len() implies run(
            c,
            *(#[trigger] k[i]).key,
            (#[trigger] less[j]).env,
            less[j].value,
        ).err is None by {
            assert(less[j] == rows[j]);
        }
        roll_table(c, k, r, o, less);
        let row = rows[rows.len() - 1];
        let one_row = seq![row];
        assert forall|i: int, j: int| 0 <= i < k.len() && 0 <= j < one_row.len() implies run(
            c,
            *(#[trigger] k[i]).key,
            (#[trigger] one_row[j]).env,
            one_row[j].value,
        ).err is None by {
            assert(one_row[j] == rows[rows.len() - 1]);
        }
        roll_keys_are_values(c, k, row);
        all_see(c, r, row);
        assert(group_keys(c, g, row) == roll_keys(c, k, row)) by {
            reveal(group_keys);
            reveal(roll_keys);
        }
        let x = table_row(c, roll_values(c, k, row), r, row);
        assert(agg_row(c, a, row) == Ok::<KeyedV, Missing>(x)) by {
            reveal(agg_row);
            reveal(group_keys);
            reveal(seen_by_all);
        }
        assert(roll_rows(c, k, r, less).push(x) =~= roll_rows(c, k, r, rows));
    }
}

/// The columns of a rolled-up group: the keys that it has, and null for those
/// that are rolled up.
pub open spec fn rolled_columns(k: Seq<AggGroupKeyV>, b: BucketV) -> Seq<(Seq<char>, ValueV)> {
    Seq::new(
        k.len(),
        |i: int|
            (
                k[i].name,
                if i < b.labels.len() {
                    b.labels[i]
                } else {
                    ValueV::Null
                },
            ),
    )
}

/// A rollup gives a row for each group of each prefix of its keys, the longest
/// first: the keys, null for those that are rolled up, and the outputs over
/// the group's reductions.
#[verifier::spinoff_prover]
pub proof fn rollups_give_a_row_for_each_group(
    c: CtxV,
    k: Seq<AggGroupKeyV>,
    r: Seq<AggReductionV>,
    o: Seq<(Seq<char>, AggOutputV)>,
    env: EnvV,
    s: StreamV,
    j: int,
)
    requires
        s.err is None,
        all_sound(c, r, s.rows),
        roll_sound(c, k, s.rows),
        after(
            c,
            AstV::AggregateBlock { group: Some(AggGroupV::Rollup(k)), reductions: r, outputs: o },
            env,
            s,
        ).err is None,
        0 <= j < rolled_up(c, ops_of(r), roll_rows(c, k, r, s.rows), k.len()).len(),
    ensures
        ({
            let out = after(
                c,
                AstV::AggregateBlock {
                    group: Some(AggGroupV::Rollup(k)),
                    reductions: r,
                    outputs: o,
                },
                env,
                s,
            ).rows;
            let groups = rolled_up(c, ops_of(r), roll_rows(c, k, r, s.rows), k.len());
            let inside = with_slots(env, slots_of(c, ops_of(r), groups[j]));
            &&& out.len() == groups.len()
            &&& outputs(c, o, inside) is Ok
            &&& out[j] == RowV {
                env,
                value: ValueV::BucketRow(
                    rolled_columns(k, groups[j]) + outputs(c, o, inside)->Ok_0,
                ),
            }
        }),
{
    let rows = s.rows;
    let g = AggGroupV::Rollup(k);
    let a = AstV::AggregateBlock { group: Some(g), reductions: r, outputs: o };
    let ops = ops_of(r);
    let t = roll_rows(c, k, r, rows);
    let b = rolled_up(c, ops, t, k.len());
    roll_table(c, k, r, o, rows);
    assert(after(c, a, env, s) == bucket_rows(c, o, roll_names(k), ops, b, env)) by {
        assert(after(c, a, env, s) == agg_rows(c, Some(g), ops, o, t, env)) by {
            reveal(after);
            reveal(agg_table);
            reveal(agg_rows);
        }
        reveal(agg_rows);
        reveal(bucket_rows);
    }
    bucket_rows_each(c, o, roll_names(k), ops, b, env);
    assert(outputs(c, o, with_slots(env, slots_of(c, ops, b[j]))) is Ok);
    assert(key_columns(roll_names(k), b[j]) =~= rolled_columns(k, b[j]));
}

/// The row of the table of a collection.
pub open spec fn collected_row(c: CtxV, k: AstV, row: RowV) -> KeyedV {
    match keyed(c, part_at(c, k, row.env, row.value)) {
        None => no_key(),
        Some(key) => KeyedV {
            keys: seq![Some(key)],
            inputs: Seq::empty(),
            nodes: match row.value {
                ValueV::Node(id) => seq![id],
                _ => Seq::empty(),
            },
        },
    }
}

pub open spec fn collected_rows(c: CtxV, k: AstV, rows: Seq<RowV>) -> Seq<KeyedV> {
    Seq::new(rows.len(), |j: int| collected_row(c, k, rows[j]))
}

/// The nodes among the rows with this key, in their order.
pub open spec fn nodes_with(c: CtxV, k: AstV, key: ScalarKeyV, rows: Seq<RowV>) -> Seq<u32>
    decreases rows.len(),
{
    if rows.len() == 0 {
        Seq::empty()
    } else {
        let rest = nodes_with(c, k, key, rows.drop_last());
        match rows.last().value {
            ValueV::Node(id) => if row_key(c, k, rows.last()) == Some(key) {
                rest.push(id)
            } else {
                rest
            },
            _ => rest,
        }
    }
}

#[verifier::spinoff_prover]
proof fn collect_table(c: CtxV, k: AstV, rows: Seq<RowV>)
    requires
        forall|j: int|
            0 <= j < rows.len() ==> run(c, k, (#[trigger] rows[j]).env, rows[j].value).err is None,
    ensures
        by_table(c, AstV::By(Box::new(AstV::Identity), Box::new(k)), rows) == Ok::<
            Seq<KeyedV>,
            Missing,
        >(collected_rows(c, k, rows)),
    decreases rows.len(),
{
    let a = AstV::By(Box::new(AstV::Identity), Box::new(k));
    if rows.len() == 0 {
        reveal(by_table);
        assert(collected_rows(c, k, rows) =~= Seq::empty());
    } else {
        let less = rows.drop_last();
        assert forall|j: int| 0 <= j < less.len() implies run(
            c,
            k,
            (#[trigger] less[j]).env,
            less[j].value,
        ).err is None by {
            assert(less[j] == rows[j]);
        }
        collect_table(c, k, less);
        let row = rows[rows.len() - 1];
        let x = collected_row(c, k, row);
        assert(run(c, AstV::Identity, row.env, row.value) == one(row.env, row.value)) by {
            reveal(run);
        }
        let v = values_of(one(row.env, row.value).rows);
        assert(v =~= seq![row.value]);
        assert(v.drop_last() =~= Seq::empty());
        assert(node_ids(v.drop_last()) == Seq::<u32>::empty());
        assert(node_ids(v) =~= match row.value {
            ValueV::Node(id) => seq![id],
            _ => Seq::empty(),
        });
        assert(by_row(c, a, row) == Ok::<KeyedV, Missing>(x)) by {
            reveal(by_row);
            reveal(run);
        }
        assert(by_table(c, a, rows) == Ok::<Seq<KeyedV>, Missing>(
            collected_rows(c, k, less).push(x),
        )) by {
            reveal_with_fuel(by_table, 2);
            reveal(by_row);
        }
        assert(collected_rows(c, k, less).push(x) =~= collected_rows(c, k, rows));
    }
}

proof fn collected_keys(c: CtxV, k: AstV, row: RowV, key: Seq<ScalarKeyV>)
    requires
        key.len() == 1,
    ensures
        has_keys(collected_row(c, k, row), key) <==> row_key(c, k, row) == Some(key[0]),
{
    let x = collected_row(c, k, row);
    if has_keys(x, key) {
        assert(key_is(x, 0, key[0]));
    }
    if row_key(c, k, row) == Some(key[0]) {
        assert forall|i: int| 0 <= i < key.len() implies key_is(x, i, #[trigger] key[i]) by {
            assert(i == 0);
        }
    }
}

proof fn collected_nodes(c: CtxV, k: AstV, rows: Seq<RowV>, key: Seq<ScalarKeyV>)
    requires
        key.len() == 1,
    ensures
        nodes_of(collected_rows(c, k, rows), key) == nodes_with(c, k, key[0], rows),
    decreases rows.len(),
{
    let t = collected_rows(c, k, rows);
    if rows.len() > 0 {
        let less = rows.drop_last();
        collected_nodes(c, k, less, key);
        assert(t.drop_last() =~= collected_rows(c, k, less));
        assert(t.last() == collected_row(c, k, rows.last()));
        collected_keys(c, k, rows.last(), key);
        assert(nodes_of(t, key) =~= nodes_with(c, k, key[0], rows));
    }
}

/// The groups of a collection: one for each key that a row has, with the nodes
/// of exactly the rows that have it.
pub open spec fn collections(
    c: CtxV,
    k: AstV,
    rows: Seq<RowV>,
    out: Seq<RowV>,
    keys: Seq<ScalarKeyV>,
) -> bool {
    &&& out.len() == keys.len()
    &&& forall|j: int|
        0 <= j < out.len() ==> ((#[trigger] out[j]).value matches ValueV::GroupList { key, members }
            && key == key_text(c, keys[j]) && members == nodes_with(c, k, keys[j], rows))
    &&& forall|i: int, j: int| 0 <= i < j < keys.len() ==> #[trigger] keys[i] != #[trigger] keys[j]
    &&& forall|i: int|
        0 <= i < rows.len() ==> (row_key(c, k, #[trigger] rows[i]) matches Some(x) ==> keys.contains(
            x,
        ))
}

/// `collect by` gives a group for each key, with the nodes of the rows that
/// have it.
#[verifier::spinoff_prover]
pub proof fn collections_hold_the_nodes_of_their_key(c: CtxV, k: AstV, env: EnvV, s: StreamV)
    requires
        s.err is None,
        forall|j: int|
            0 <= j < s.rows.len() ==> run(c, k, (#[trigger] s.rows[j]).env, s.rows[j].value).err is None,
    ensures
        after(c, AstV::By(Box::new(AstV::Identity), Box::new(k)), env, s).err is None,
        exists|keys: Seq<ScalarKeyV>|
            collections(
                c,
                k,
                s.rows,
                after(c, AstV::By(Box::new(AstV::Identity), Box::new(k)), env, s).rows,
                keys,
            ),
{
    let rows = s.rows;
    let a = AstV::By(Box::new(AstV::Identity), Box::new(k));
    let none = Seq::<ReducerOp>::empty();
    let t = collected_rows(c, k, rows);
    let b = grouped(c, none, t, 1);
    collect_table(c, k, rows);
    groups_hold_their_rows(c, none, t, 1);
    groups_stand_in_order(c, none, t, 1);
    assert(after(c, a, env, s) == all_of(env, group_lists(c, b))) by {
        reveal(after);
        reveal(by_table);
    }
    let out = after(c, a, env, s).rows;
    let keys = Seq::new(b.len(), |j: int| b[j].keys[0]);
    assert forall|j: int| 0 <= j < out.len() implies ((#[trigger] out[j]).value matches ValueV::GroupList {
        key,
        members,
    } && key == key_text(c, keys[j]) && members == nodes_with(c, k, keys[j], rows)) by {
        assert(is_group_of(c, none, t, b[j]));
        collected_nodes(c, k, rows, b[j].keys);
    }
    assert forall|i: int, j: int| 0 <= i < j < keys.len() implies #[trigger] keys[i]
        != #[trigger] keys[j] by {
        assert(keys_before(b[i].keys, b[j].keys, 0));
        if keys[i] == keys[j] {
            assert(b[i].keys =~= b[j].keys);
            super::laws::keys_order_once(b[i].keys);
        }
    }
    assert forall|i: int| 0 <= i < rows.len() implies (row_key(c, k, #[trigger] rows[i]) matches Some(
        x,
    ) ==> keys.contains(x)) by {
        if let Some(x) = row_key(c, k, rows[i]) {
            collected_keys(c, k, rows[i], seq![x]);
            assert(t[i] == collected_row(c, k, rows[i]));
            assert(has_keys(t[i], seq![x]));
            assert(some_row(t, seq![x]));
            assert(has_group(b, seq![x]));
            let j = choose|j: int| 0 <= j < b.len() && (#[trigger] b[j]).keys == seq![x];
            assert(keys[j] == x);
        }
    }
    assert(collections(c, k, rows, out, keys));
}

} // verus!
