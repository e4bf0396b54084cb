//! What reductions and groups are for.
use vstd::prelude::*;

use super::super::ast::{AstV, ReducerOp};
use super::super::index::ScalarKeyV;
use super::super::number::{finite, nan, num_lt, NumOp};
use super::super::value::ValueV;
use super::laws::{groups_stand_in_order, in_key_order};
use super::model::{
    absorbed, consumed_all, empty_bucket, finished, fresh_state, grouped, keys_before, keys_to, one,
    put_row, reduced_number, values_of, BucketV, CtxV, EnvV, KeyedV, ReducerState, StreamV,
};
use super::semantics::{after, reduced, rolled_up};

verus! {

/// What a reduction makes of a run of values.
pub open spec fn reduction(c: CtxV, op: ReducerOp, v: Seq<ValueV>) -> Option<u64> {
    finished(c, op, consumed_all(c, op, fresh_state(), v))
}

/// Each of these values stands for the number in the same place.
pub open spec fn stand_for(c: CtxV, v: Seq<ValueV>, x: Seq<u64>) -> bool {
    &&& v.len() == x.len()
    &&& forall|i: int| 0 <= i < v.len() ==> reduced_number(c, #[trigger] v[i]) == Some(x[i])
}

/// `x[k]` is the least of these numbers.
pub open spec fn least(x: Seq<u64>, k: int) -> bool {
    &&& 0 <= k < x.len()
    &&& forall|j: int| 0 <= j < x.len() ==> !num_lt(#[trigger] x[j], x[k])
}

/// `x[k]` is the greatest of these numbers.
pub open spec fn greatest(x: Seq<u64>, k: int) -> bool {
    &&& 0 <= k < x.len()
    &&& forall|j: int| 0 <= j < x.len() ==> !num_lt(x[k], #[trigger] x[j])
}

/// The minimum of numbers is one of them, and none of them is less.
pub proof fn min_is_the_least(c: CtxV, v: Seq<ValueV>, x: Seq<u64>)
    requires
        stand_for(c, v, x),
        x.len() > 0,
        forall|i: int| 0 <= i < x.len() ==> !nan(#[trigger] x[i]),
    ensures
        exists|k: int| #[trigger] least(x, k) && reduction(c, ReducerOp::Min, v) == Some(x[k]),
    decreases v.len(),
{
    let m = x.len() - 1;
    let w = v.drop_last();
    let y = x.drop_last();
    assert(reduced_number(c, v[m]) == Some(x[m]));
    if m == 0 {
        assert(w =~= Seq::empty());
        assert(consumed_all(c, ReducerOp::Min, fresh_state(), w) == fresh_state());
        assert(least(x, 0));
    } else {
        assert forall|i: int| 0 <= i < w.len() implies reduced_number(c, #[trigger] w[i]) == Some(
            y[i],
        ) by {
            assert(w[i] == v[i]);
        }
        assert forall|i: int| 0 <= i < y.len() implies !nan(#[trigger] y[i]) by {
            assert(y[i] == x[i]);
        }
        min_is_the_least(c, w, y);
        let k = choose|k: int| #[trigger] least(y, k) && reduction(c, ReducerOp::Min, w) == Some(y[k]);
        assert(y[k] == x[k]);
        assert forall|j: int| 0 <= j < m implies !num_lt(#[trigger] x[j], x[k]) by {
            assert(y[j] == x[j]);
        }
        if num_lt(x[m], x[k]) {
            assert(least(x, m)) by {
                assert forall|j: int| 0 <= j < x.len() implies !num_lt(#[trigger] x[j], x[m]) by {
                    if j < m {
                        assert(!nan(x[j]));
                    }
                }
            }
            assert(reduction(c, ReducerOp::Min, v) == Some(x[m]));
        } else {
            assert(least(x, k));
            assert(reduction(c, ReducerOp::Min, v) == Some(x[k]));
        }
    }
}

/// The maximum of numbers is one of them, and it is less than none.
pub proof fn max_is_the_greatest(c: CtxV, v: Seq<ValueV>, x: Seq<u64>)
    requires
        stand_for(c, v, x),
        x.len() > 0,
        forall|i: int| 0 <= i < x.len() ==> !nan(#[trigger] x[i]),
    ensures
        exists|k: int| #[trigger] greatest(x, k) && reduction(c, ReducerOp::Max, v) == Some(x[k]),
    decreases v.len(),
{
    let m = x.len() - 1;
    let w = v.drop_last();
    let y = x.drop_last();
    assert(reduced_number(c, v[m]) == Some(x[m]));
    if m == 0 {
        assert(w =~= Seq::empty());
        assert(consumed_all(c, ReducerOp::Max, fresh_state(), w) == fresh_state());
        assert(greatest(x, 0));
    } else {
        assert forall|i: int| 0 <= i < w.len() implies reduced_number(c, #[trigger] w[i]) == Some(
            y[i],
        ) by {
            assert(w[i] == v[i]);
        }
        assert forall|i: int| 0 <= i < y.len() implies !nan(#[trigger] y[i]) by {
            assert(y[i] == x[i]);
        }
        max_is_the_greatest(c, w, y);
        let k = choose|k: int|
            #[trigger] greatest(y, k) && reduction(c, ReducerOp::Max, w) == Some(y[k]);
        assert(y[k] == x[k]);
        assert forall|j: int| 0 <= j < m implies !num_lt(x[k], #[trigger] x[j]) by {
            assert(y[j] == x[j]);
        }
        if num_lt(x[k], x[m]) {
            assert(greatest(x, m)) by {
                assert forall|j: int| 0 <= j < x.len() implies !num_lt(x[m], #[trigger] x[j]) by {
                    if j < m {
                        assert(!nan(x[j]));
                    }
                }
            }
            assert(reduction(c, ReducerOp::Max, v) == Some(x[m]));
        } else {
            assert(greatest(x, k));
            assert(reduction(c, ReducerOp::Max, v) == Some(x[k]));
        }
    }
}

/// A finite number among the values of a reduction is itself, a boolean one or
/// zero, and null is none.
pub proof fn numbers_stand_for_themselves(c: CtxV, x: u64)
    requires
        finite(x),
    ensures
        reduced_number(c, ValueV::Number(x)) == Some(x),
        reduced_number(c, ValueV::Bool(true)) == Some((c.n.apply)(NumOp::OfInt, 1, 0)),
        reduced_number(c, ValueV::Bool(false)) == Some((c.n.apply)(NumOp::OfInt, 0, 0)),
        reduced_number(c, ValueV::Null) is None,
{
}

/// A count is how many values there are, whatever they are.
pub proof fn count_counts(c: CtxV, v: Seq<ValueV>)
    requires
        v.len() <= u64::MAX,
    ensures
        reduction(c, ReducerOp::Count, v) == Some((c.n.apply)(NumOp::OfInt, v.len() as u64, 0)),
        consumed_all(c, ReducerOp::Count, fresh_state(), v).count == v.len(),
    decreases v.len(),
{
    if v.len() > 0 {
        count_counts(c, v.drop_last());
    }
}

/// How many of these values stand for a number.
pub open spec fn number_count(c: CtxV, v: Seq<ValueV>) -> nat
    decreases v.len(),
{
    if v.len() == 0 {
        0
    } else {
        number_count(c, v.drop_last()) + if reduced_number(c, v.last()) is Some {
            1nat
        } else {
            0
        }
    }
}

proof fn numbers_counted(c: CtxV, op: ReducerOp, v: Seq<ValueV>)
    requires
        op != ReducerOp::Count,
        v.len() <= u64::MAX,
    ensures
        consumed_all(c, op, fresh_state(), v).count == number_count(c, v),
        number_count(c, v) <= v.len(),
    decreases v.len(),
{
    if v.len() > 0 {
        numbers_counted(c, op, v.drop_last());
    }
}

/// A sum starts with the first number and adds each further one. Values that
/// stand for no number take no part, and without a number there is no sum.
pub proof fn sum_adds(c: CtxV, v: Seq<ValueV>, x: ValueV)
    requires
        v.len() < u64::MAX,
    ensures
        reduction(c, ReducerOp::Sum, v) is None <==> number_count(c, v) == 0,
        reduced_number(c, x) is None ==> reduction(c, ReducerOp::Sum, v.push(x)) == reduction(
            c,
            ReducerOp::Sum,
            v,
        ),
        reduced_number(c, x) matches Some(y) ==> reduction(c, ReducerOp::Sum, v.push(x)) == Some(
            (c.n.apply)(
                NumOp::Add,
                match reduction(c, ReducerOp::Sum, v) {
                    Some(t) => t,
                    None => 0,
                },
                y,
            ),
        ),
{
    numbers_counted(c, ReducerOp::Sum, v);
    sums_are_kept(c, v);
    assert(v.push(x).drop_last() =~= v);
}

proof fn sums_are_kept(c: CtxV, v: Seq<ValueV>)
    requires
        v.len() <= u64::MAX,
    ensures
        number_count(c, v) == 0 ==> consumed_all(c, ReducerOp::Sum, fresh_state(), v).sum == 0,
        consumed_all(c, ReducerOp::Sum, fresh_state(), v).sum == consumed_all(
            c,
            ReducerOp::Avg,
            fresh_state(),
            v,
        ).sum,
    decreases v.len(),
{
    if v.len() > 0 {
        sums_are_kept(c, v.drop_last());
    }
}

/// An average is the sum divided by how many numbers there are.
pub proof fn average_divides_the_sum(c: CtxV, v: Seq<ValueV>)
    requires
        v.len() <= u64::MAX,
    ensures
        reduction(c, ReducerOp::Avg, v) == match reduction(c, ReducerOp::Sum, v) {
            Some(t) => Some(
                (c.n.apply)(
                    NumOp::Div,
                    t,
                    (c.n.apply)(NumOp::OfInt, number_count(c, v) as u64, 0),
                ),
            ),
            None => None,
        },
{
    numbers_counted(c, ReducerOp::Sum, v);
    numbers_counted(c, ReducerOp::Avg, v);
    sums_are_kept(c, v);
}

/// The least and the greatest of no numbers are missing.
pub proof fn extremes_of_nothing(c: CtxV, v: Seq<ValueV>)
    requires
        number_count(c, v) == 0,
    ensures
        reduction(c, ReducerOp::Min, v) is None,
        reduction(c, ReducerOp::Max, v) is None,
    decreases v.len(),
{
    if v.len() > 0 {
        assert(number_count(c, v) >= number_count(c, v.drop_last()));
        extremes_of_nothing(c, v.drop_last());
    }
}

/// The reducer that a stage of this name is.
pub open spec fn stage_of(op: ReducerOp) -> AstV {
    match op {
        ReducerOp::Sum => AstV::Sum,
        ReducerOp::Min => AstV::Min,
        ReducerOp::Max => AstV::Max,
        ReducerOp::Avg => AstV::Avg,
        ReducerOp::Count => AstV::Count,
    }
}

/// A reducer behind a stream gives one row: the reduction of all its values,
/// null where there is none.
#[verifier::spinoff_prover]
pub proof fn reducers_reduce_the_stream(c: CtxV, op: ReducerOp, env: EnvV, s: StreamV)
    requires
        s.err is None,
    ensures
        after(c, stage_of(op), env, s) == one(
            env,
            match reduction(c, op, values_of(s.rows)) {
                Some(x) => ValueV::Number(x),
                None => ValueV::Null,
            },
        ),
{
    assert(after(c, stage_of(op), env, s) == reduced(c, op, env, s)) by {
        reveal(after);
    }
}

proof fn consumed_further(c: CtxV, op: ReducerOp, s: ReducerState, a: Seq<ValueV>, b: Seq<ValueV>)
    ensures
        consumed_all(c, op, s, a + b) == consumed_all(c, op, consumed_all(c, op, s, a), b),
    decreases b.len(),
{
    if b.len() == 0 {
        assert(a + b =~= a);
    } else {
        assert((a + b).drop_last() =~= a + b.drop_last());
        consumed_further(c, op, s, a, b.drop_last());
    }
}

/// The row has these keys.
pub open spec fn has_keys(r: KeyedV, k: Seq<ScalarKeyV>) -> bool {
    forall|i: int| 0 <= i < k.len() ==> key_is(r, i, #[trigger] k[i])
}

/// Key `i` of the row.
pub open spec fn key_is(r: KeyedV, i: int, k: ScalarKeyV) -> bool {
    match r.keys[i] {
        Some(x) => x.0 == k,
        None => false,
    }
}

/// One of the first keys of the row is missing.
pub open spec fn lacks_key(r: KeyedV, p: nat) -> bool {
    exists|i: int| 0 <= i < p && (#[trigger] r.keys[i]) is None
}

proof fn keys_taken(r: KeyedV, p: nat)
    ensures
        match keys_to(r.keys, p) {
            Some(x) => x.0.len() == p && has_keys(r, x.0) && x.1.len() == p,
            None => lacks_key(r, p),
        },
    decreases p,
{
    if p > 0 {
        keys_taken(r, (p - 1) as nat);
        match keys_to(r.keys, (p - 1) as nat) {
            Some(rest) => match r.keys[p - 1] {
                Some(x) => {
                    let k = rest.0.push(x.0);
                    assert forall|i: int| 0 <= i < k.len() implies key_is(r, i, #[trigger] k[i]) by {
                        if i < p - 1 {
                            assert(rest.0[i] == k[i]);
                        }
                    }
                    assert(has_keys(r, k));
                },
                None => {
                    assert(r.keys[p - 1] is None);
                },
            },
            None => {
                let i = choose|i: int| 0 <= i < p - 1 && (#[trigger] r.keys[i]) is None;
                assert(r.keys[i] is None);
            },
        }
    }
}

/// Rows of the same keys have those keys.
proof fn keys_are_these(r: KeyedV, k: Seq<ScalarKeyV>)
    requires
        has_keys(r, k),
    ensures
        keys_to(r.keys, k.len()) matches Some(x) && x.0 == k,
{
    keys_taken(r, k.len());
    match keys_to(r.keys, k.len()) {
        Some(x) => {
            assert forall|i: int| 0 <= i < k.len() implies x.0[i] == k[i] by {
                assert(key_is(r, i, k[i]) && key_is(r, i, x.0[i]));
            }
            assert(x.0 =~= k);
        },
        None => {
            let i = choose|i: int| 0 <= i < k.len() && (#[trigger] r.keys[i]) is None;
            assert(key_is(r, i, k[i]));
        },
    }
}

/// What reduction `i` sees of the rows with these keys, in their order.
pub open spec fn seen_of(rows: Seq<KeyedV>, k: Seq<ScalarKeyV>, i: int) -> Seq<ValueV>
    decreases rows.len(),
{
    if rows.len() == 0 {
        Seq::empty()
    } else if has_keys(rows.last(), k) {
        seen_of(rows.drop_last(), k, i) + rows.last().inputs[i]
    } else {
        seen_of(rows.drop_last(), k, i)
    }
}

/// The nodes of the rows with these keys, in their order.
pub open spec fn nodes_of(rows: Seq<KeyedV>, k: Seq<ScalarKeyV>) -> Seq<u32>
    decreases rows.len(),
{
    if rows.len() == 0 {
        Seq::empty()
    } else if has_keys(rows.last(), k) {
        nodes_of(rows.drop_last(), k) + rows.last().nodes
    } else {
        nodes_of(rows.drop_last(), k)
    }
}

/// The group is that of its keys: it reduces what its rows show, and no more.
pub open spec fn is_group_of(
    c: CtxV,
    ops: Seq<ReducerOp>,
    rows: Seq<KeyedV>,
    b: BucketV,
) -> bool {
    &&& b.states.len() == ops.len()
    &&& forall|i: int|
        0 <= i < ops.len() ==> #[trigger] b.states[i] == consumed_all(
            c,
            ops[i],
            fresh_state(),
            seen_of(rows, b.keys, i),
        )
    &&& b.members == nodes_of(rows, b.keys)
}

/// Some group has these keys.
pub open spec fn has_group(b: Seq<BucketV>, k: Seq<ScalarKeyV>) -> bool {
    exists|j: int| 0 <= j < b.len() && (#[trigger] b[j]).keys == k
}

/// A row goes into the group of its keys; every other group stays.
#[verifier::spinoff_prover]
proof fn put_row_puts(
    c: CtxV,
    ops: Seq<ReducerOp>,
    b: Seq<BucketV>,
    keys: Seq<ScalarKeyV>,
    labels: Seq<ValueV>,
    r: KeyedV,
    j: int,
)
    requires
        in_key_order(b, keys.len()),
        0 <= j < put_row(c, ops, b, keys, labels, r).len(),
    ensures
        ({
            let x = put_row(c, ops, b, keys, labels, r)[j];
            ||| x.keys != keys && b.contains(x)
            ||| x.keys == keys && !has_group(b, keys) && x == absorbed(
                c,
                ops,
                empty_bucket(ops, keys, labels),
                r,
            )
            ||| x.keys == keys && exists|k: int|
                0 <= k < b.len() && (#[trigger] b[k]).keys == keys && x == absorbed(c, ops, b[k], r)
        }),
    decreases b.len(),
{
    let out = put_row(c, ops, b, keys, labels, r);
    if b.len() == 0 {
    } else if b.last().keys == keys {
        if j == b.len() - 1 {
            assert(b[b.len() - 1].keys == keys);
        } else {
            assert(out[j] == b[j]);
            assert(keys_before(b[j].keys, b[b.len() - 1].keys, 0));
            super::laws::keys_order_once(b[j].keys);
        }
    } else if keys_before(b.last().keys, keys, 0) {
        assert forall|k: int| 0 <= k < b.len() implies (#[trigger] b[k]).keys != keys by {
            if k < b.len() - 1 {
                assert(keys_before(b[k].keys, b[b.len() - 1].keys, 0));
                super::laws::keys_order_chain(b[k].keys, b[b.len() - 1].keys, keys);
            }
            super::laws::keys_order_once(keys);
        }
        if j < b.len() {
            assert(out[j] == b[j]);
        }
    } else {
        let less = b.drop_last();
        let inner = put_row(c, ops, less, keys, labels, r);
        assert forall|i: int, k: int| 0 <= i < k < less.len() implies keys_before(
            (#[trigger] less[i]).keys,
            (#[trigger] less[k]).keys,
            0,
        ) by {
            assert(keys_before(b[i].keys, b[k].keys, 0));
        }
        assert forall|i: int| 0 <= i < less.len() implies (#[trigger] less[i]).keys.len()
            == keys.len() by {
            assert(b[i] == less[i]);
        }
        if j < inner.len() {
            assert(out[j] == inner[j]);
            put_row_puts(c, ops, less, keys, labels, r, j);
            let x = inner[j];
            if x.keys != keys {
                let k = choose|k: int| 0 <= k < less.len() && less[k] == x;
                assert(b[k] == x);
            } else if !has_group(less, keys) {
                assert(!has_group(b, keys)) by {
                    if has_group(b, keys) {
                        let k = choose|k: int| 0 <= k < b.len() && (#[trigger] b[k]).keys == keys;
                        assert(less[k].keys == keys);
                    }
                }
            } else {
                let k = choose|k: int|
                    0 <= k < less.len() && (#[trigger] less[k]).keys == keys && x == absorbed(
                        c,
                        ops,
                        less[k],
                        r,
                    );
                assert(b[k] == less[k]);
            }
        } else {
            assert(out[j] == b[b.len() - 1]);
        }
    }
}

/// One of the rows has these keys.
pub open spec fn some_row(rows: Seq<KeyedV>, k: Seq<ScalarKeyV>) -> bool {
    exists|i: int| 0 <= i < rows.len() && has_keys(#[trigger] rows[i], k)
}

/// Every group is that of its keys, which some row has; and every row that
/// has its keys has its group.
pub open spec fn groups_partition(
    c: CtxV,
    ops: Seq<ReducerOp>,
    rows: Seq<KeyedV>,
    p: nat,
    b: Seq<BucketV>,
) -> bool {
    &&& forall|j: int| 0 <= j < b.len() ==> is_group_of(c, ops, rows, #[trigger] b[j])
    &&& forall|j: int|
        0 <= j < b.len() ==> (#[trigger] b[j]).keys.len() == p && (p == 0 || some_row(
            rows,
            b[j].keys,
        ))
    &&& forall|k: Seq<ScalarKeyV>|
        k.len() == p && some_row(rows, k) ==> #[trigger] has_group(b, k)
}

proof fn put_row_has(
    c: CtxV,
    ops: Seq<ReducerOp>,
    b: Seq<BucketV>,
    keys: Seq<ScalarKeyV>,
    labels: Seq<ValueV>,
    r: KeyedV,
    k: Seq<ScalarKeyV>,
)
    requires
        k == keys || has_group(b, k),
    ensures
        has_group(put_row(c, ops, b, keys, labels, r), k),
    decreases b.len(),
{
    let out = put_row(c, ops, b, keys, labels, r);
    if b.len() == 0 {
        assert(out[0].keys == keys);
    } else if b.last().keys == keys {
        if k == keys {
            assert(out[b.len() - 1].keys == keys);
        } else {
            let j = choose|j: int| 0 <= j < b.len() && (#[trigger] b[j]).keys == k;
            assert(out[j].keys == k);
        }
    } else if keys_before(b.last().keys, keys, 0) {
        if k == keys {
            assert(out[b.len() as int].keys == keys);
        } else {
            let j = choose|j: int| 0 <= j < b.len() && (#[trigger] b[j]).keys == k;
            assert(out[j].keys == k);
        }
    } else {
        let less = b.drop_last();
        let inner = put_row(c, ops, less, keys, labels, r);
        if k == keys || has_group(less, k) {
            put_row_has(c, ops, less, keys, labels, r, k);
            let j = choose|j: int| 0 <= j < inner.len() && (#[trigger] inner[j]).keys == k;
            assert(out[j].keys == k);
        } else {
            let j = choose|j: int| 0 <= j < b.len() && (#[trigger] b[j]).keys == k;
            if j < less.len() {
                assert(less[j].keys == k);
            }
            assert(out[out.len() - 1].keys == k);
        }
    }
}

proof fn nothing_seen(rows: Seq<KeyedV>, k: Seq<ScalarKeyV>, i: int)
    requires
        !some_row(rows, k),
    ensures
        seen_of(rows, k, i) == Seq::<ValueV>::empty(),
        nodes_of(rows, k) == Seq::<u32>::empty(),
    decreases rows.len(),
{
    if rows.len() > 0 {
        assert(!has_keys(rows[rows.len() - 1], k));
        if some_row(rows.drop_last(), k) {
            let j = choose|j: int| 0 <= j < rows.len() - 1 && has_keys(#[trigger] rows.drop_last()[j], k);
            assert(has_keys(rows[j], k));
        }
        nothing_seen(rows.drop_last(), k, i);
    }
}

/// Rows that agree on their keys, and only those, make up a group: each of its
/// reductions sees what those rows show, in their order, and it holds their
/// nodes. Without keys all rows are one group. A row that lacks a key is in no
/// group.
#[verifier::spinoff_prover]
pub proof fn groups_hold_their_rows(c: CtxV, ops: Seq<ReducerOp>, rows: Seq<KeyedV>, p: nat)
    ensures
        groups_partition(c, ops, rows, p, grouped(c, ops, rows, p)),
        p == 0 ==> grouped(c, ops, rows, p).len() == 1,
    decreases rows.len(),
{
    let b = grouped(c, ops, rows, p);
    if rows.len() == 0 {
        if p == 0 {
            let e = b[0];
            nothing_seen(rows, e.keys, 0);
            assert forall|i: int| 0 <= i < ops.len() implies #[trigger] e.states[i] == consumed_all(
                c,
                ops[i],
                fresh_state(),
                seen_of(rows, e.keys, i),
            ) by {}
            assert forall|k: Seq<ScalarKeyV>| k.len() == p && some_row(rows, k) implies #[trigger] has_group(
                b,
                k,
            ) by {}
        }
    } else {
        let less = rows.drop_last();
        let r = rows.last();
        let old = grouped(c, ops, less, p);
        groups_hold_their_rows(c, ops, less, p);
        groups_stand_in_order(c, ops, less, p);
        keys_taken(r, p);
        match keys_to(r.keys, p) {
            Some(x) => {
                let k = x.0;
                assert forall|j: int| 0 <= j < b.len() implies is_group_of(
                    c,
                    ops,
                    rows,
                    #[trigger] b[j],
                ) && b[j].keys.len() == p && (p == 0 || some_row(rows, b[j].keys)) by {
                    put_row_puts(c, ops, old, k, x.1, r, j);
                    one_group(c, ops, rows, p, j, k, x.1);
                }
                assert forall|m: Seq<ScalarKeyV>| m.len() == p && some_row(rows, m) implies #[trigger] has_group(
                    b,
                    m,
                ) by {
                    let i = choose|i: int| 0 <= i < rows.len() && has_keys(#[trigger] rows[i], m);
                    if i < less.len() {
                        assert(has_keys(less[i], m));
                        assert(has_group(old, m));
                    } else {
                        keys_are_these(r, m);
                    }
                    put_row_has(c, ops, old, k, x.1, r, m);
                }
                if p == 0 {
                    assert(k =~= Seq::empty());
                    assert(old[0].keys =~= k);
                }
            },
            None => {
                assert forall|k: Seq<ScalarKeyV>| k.len() == p implies !#[trigger] has_keys(r, k) by {
                    if has_keys(r, k) {
                        keys_are_these(r, k);
                    }
                }
                assert forall|j: int| 0 <= j < b.len() implies is_group_of(
                    c,
                    ops,
                    rows,
                    #[trigger] b[j],
                ) && b[j].keys.len() == p && (p == 0 || some_row(rows, b[j].keys)) by {
                    let g = old[j];
                    assert(is_group_of(c, ops, less, old[j]));
                    assert(!has_keys(r, g.keys));
                    if p > 0 {
                        let i = choose|i: int| 0 <= i < less.len() && has_keys(#[trigger] less[i], g.keys);
                        assert(has_keys(rows[i], g.keys));
                    }
                }
                assert forall|m: Seq<ScalarKeyV>| m.len() == p && some_row(rows, m) implies #[trigger] has_group(
                    b,
                    m,
                ) by {
                    let i = choose|i: int| 0 <= i < rows.len() && has_keys(#[trigger] rows[i], m);
                    assert(has_keys(less[i], m));
                    assert(has_group(old, m));
                }
            },
        }
    }
}

/// A group with one more row is still that of its keys.
#[verifier::spinoff_prover]
proof fn one_group(
    c: CtxV,
    ops: Seq<ReducerOp>,
    rows: Seq<KeyedV>,
    p: nat,
    j: int,
    k: Seq<ScalarKeyV>,
    labels: Seq<ValueV>,
)
    requires
        rows.len() > 0,
        k.len() == p,
        has_keys(rows.last(), k),
        keys_to(rows.last().keys, p) == Some((k, labels)),
        in_key_order(grouped(c, ops, rows.drop_last(), p), p),
        groups_partition(c, ops, rows.drop_last(), p, grouped(c, ops, rows.drop_last(), p)),
        0 <= j < grouped(c, ops, rows, p).len(),
    ensures
        is_group_of(c, ops, rows, grouped(c, ops, rows, p)[j]),
        grouped(c, ops, rows, p)[j].keys.len() == p,
        p == 0 || some_row(rows, grouped(c, ops, rows, p)[j].keys),
{
    let less = rows.drop_last();
    let r = rows.last();
    let old = grouped(c, ops, less, p);
    let x = grouped(c, ops, rows, p)[j];
    put_row_puts(c, ops, old, k, labels, r, j);
    if x.keys != k {
        let i = choose|i: int| 0 <= i < old.len() && old[i] == x;
        assert(is_group_of(c, ops, less, old[i]));
        if has_keys(r, x.keys) {
            keys_are_these(r, x.keys);
        }
        if p > 0 {
            let m = choose|m: int| 0 <= m < less.len() && has_keys(#[trigger] less[m], x.keys);
            assert(has_keys(rows[m], x.keys));
        } else {
            assert(x.keys =~= k);
        }
    } else {
        assert(has_keys(rows[rows.len() - 1], k));
        if !has_group(old, k) {
            assert(!some_row(less, k));
            let e = empty_bucket(ops, k, labels);
            nothing_seen(less, k, 0);
            assert forall|i: int| 0 <= i < ops.len() implies #[trigger] x.states[i] == consumed_all(
                c,
                ops[i],
                fresh_state(),
                seen_of(rows, x.keys, i),
            ) by {
                nothing_seen(less, k, i);
                assert(e.states[i] == fresh_state());
                assert(seen_of(rows, k, i) =~= r.inputs[i]);
            }
            assert(x.members =~= nodes_of(rows, x.keys));
        } else {
            let m = choose|m: int|
                0 <= m < old.len() && (#[trigger] old[m]).keys == k && x == absorbed(
                    c,
                    ops,
                    old[m],
                    r,
                );
            assert(is_group_of(c, ops, less, old[m]));
            assert forall|i: int| 0 <= i < ops.len() implies #[trigger] x.states[i] == consumed_all(
                c,
                ops[i],
                fresh_state(),
                seen_of(rows, x.keys, i),
            ) by {
                assert(old[m].states[i] == consumed_all(
                    c,
                    ops[i],
                    fresh_state(),
                    seen_of(less, k, i),
                ));
                consumed_further(c, ops[i], fresh_state(), seen_of(less, k, i), r.inputs[i]);
            }
        }
    }
}

/// A rollup gives the groups of every prefix of the keys, down to the one
/// group of all rows; longer prefixes come first.
pub proof fn rollups_hold_every_prefix(c: CtxV, ops: Seq<ReducerOp>, rows: Seq<KeyedV>, p: nat, q: nat)
    requires
        q <= p,
    ensures
        forall|j: int|
            0 <= j < grouped(c, ops, rows, q).len() ==> rolled_up(c, ops, rows, p).contains(
                #[trigger] grouped(c, ops, rows, q)[j],
            ),
        forall|j: int|
            0 <= j < rolled_up(c, ops, rows, p).len() ==> (#[trigger] rolled_up(
                c,
                ops,
                rows,
                p,
            )[j]).keys.len() <= p && grouped(
                c,
                ops,
                rows,
                rolled_up(c, ops, rows, p)[j].keys.len(),
            ).contains(rolled_up(c, ops, rows, p)[j]),
        forall|i: int, j: int|
            0 <= i < j < rolled_up(c, ops, rows, p).len() ==> (#[trigger] rolled_up(
                c,
                ops,
                rows,
                p,
            )[i]).keys.len() >= (#[trigger] rolled_up(c, ops, rows, p)[j]).keys.len(),
    decreases p,
{
    let all = rolled_up(c, ops, rows, p);
    let own = grouped(c, ops, rows, p);
    groups_hold_their_rows(c, ops, rows, p);
    if p == 0 {
        assert(all == own);
        assert forall|j: int| 0 <= j < all.len() implies (#[trigger] all[j]).keys.len() <= p && grouped(
            c,
            ops,
            rows,
            all[j].keys.len(),
        ).contains(all[j]) by {
            assert(own[j].keys.len() == 0);
        }
        assert forall|j: int| 0 <= j < own.len() implies all.contains(#[trigger] own[j]) by {
            assert(all[j] == own[j]);
        }
    } else {
        let rest = rolled_up(c, ops, rows, (p - 1) as nat);
        assert(all == own + rest);
        rollups_hold_every_prefix(
            c,
            ops,
            rows,
            (p - 1) as nat,
            if q < p {
                q
            } else {
                (p - 1) as nat
            },
        );
        let these = grouped(c, ops, rows, q);
        assert forall|j: int| 0 <= j < these.len() implies all.contains(#[trigger] these[j]) by {
            if q == p {
                assert(all[j] == these[j]);
            } else {
                assert(rest.contains(these[j]));
                let m = choose|m: int| 0 <= m < rest.len() && rest[m] == these[j];
                assert(all[own.len() + m] == these[j]);
            }
        }
        assert forall|j: int| 0 <= j < all.len() implies (#[trigger] all[j]).keys.len() <= p && grouped(
            c,
            ops,
            rows,
            all[j].keys.len(),
        ).contains(all[j]) by {
            if j < own.len() {
                assert(all[j] == own[j]);
                assert(own[j].keys.len() == p);
            } else {
                assert(all[j] == rest[j - own.len()]);
            }
        }
        assert forall|i: int, j: int| 0 <= i < j < all.len() implies (#[trigger] all[i]).keys.len()
            >= (#[trigger] all[j]).keys.len() by {
            if i < own.len() {
                assert(own[i].keys.len() == p);
                if j < own.len() {
                    assert(own[j].keys.len() == p);
                } else {
                    assert(all[j] == rest[j - own.len()]);
                }
            } else {
                assert(all[i] == rest[i - own.len()]);
                assert(all[j] == rest[j - own.len()]);
            }
        }
    }
}

} // verus!
