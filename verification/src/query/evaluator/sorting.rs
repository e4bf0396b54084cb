//! What sorting is for: rows in the order of their keys, each key in its own
//! direction.
use vstd::prelude::*;

use super::super::ast::{AstV, SortDir};
use super::super::number::num_lt;
use super::super::order::{before, text_order, Rank};
use super::super::value::{scalar, ScalarV, ValueV};
use super::laws::sorting_keeps_every_row;
use super::model::{
    first, put_sorted, scalars_of, sort_rank, sorted_order, sorts_before, CtxV, EnvV, Missing, RowV,
    StreamV,
};
use super::semantics::{after, dirs_of, in_order, run, sort_firsts, sort_table, sorted};

verus! {

/// Two rows agree on the keys before `i` and differ in key `i`.
pub open spec fn first_differ(x: Seq<ScalarV>, y: Seq<ScalarV>, i: int) -> bool {
    &&& forall|j: int| 0 <= j < i ==> sort_rank(#[trigger] x[j], y[j]) == Rank::Equal
    &&& sort_rank(x[i], y[i]) != Rank::Equal
}

/// Key `i` of row `x` ranks before that of row `y` in its own direction.
pub open spec fn ranks_first(x: ScalarV, y: ScalarV, dir: SortDir) -> bool {
    match dir {
        SortDir::Asc => sort_rank(x, y) == Rank::Less,
        SortDir::Desc => sort_rank(x, y) == Rank::Greater,
    }
}

/// The first `n` keys of two rows rank equal.
pub open spec fn tied(x: Seq<ScalarV>, y: Seq<ScalarV>, n: nat) -> bool {
    forall|i: int| 0 <= i < n ==> sort_rank(#[trigger] x[i], y[i]) == Rank::Equal
}

/// Row `x` may stand right before row `y`: the first key in which they differ
/// ranks in its direction, and rows with equal keys stand as they came.
pub open spec fn may_precede(
    keys: Seq<Seq<ScalarV>>,
    dirs: Seq<SortDir>,
    x: int,
    y: int,
) -> bool {
    &&& forall|i: int|
        #![trigger dirs[i]]
        0 <= i < dirs.len() && first_differ(keys[x], keys[y], i) ==> ranks_first(
            keys[x][i],
            keys[y][i],
            dirs[i],
        )
    &&& tied(keys[x], keys[y], dirs.len()) ==> x < y
}

proof fn rank_turns(a: ScalarV, b: ScalarV)
    ensures
        sort_rank(a, b) == Rank::Less <==> sort_rank(b, a) == Rank::Greater,
        sort_rank(a, b) == Rank::Equal <==> sort_rank(b, a) == Rank::Equal,
        sort_rank(a, b) == Rank::Greater <==> sort_rank(b, a) == Rank::Less,
{
    if let (ScalarV::Str(x), ScalarV::Str(y)) = (a, b) {
        text_order(x, y, x);
        text_order(y, x, y);
    }
}

/// The first key that differs decides.
proof fn first_decides(x: Seq<ScalarV>, y: Seq<ScalarV>, dirs: Seq<SortDir>, from: int, i: int)
    requires
        0 <= from <= i < dirs.len(),
        first_differ(x, y, i),
    ensures
        sorts_before(x, y, dirs, from) == ranks_first(x[i], y[i], dirs[i]),
    decreases i - from,
{
    if from < i {
        assert(sort_rank(x[from], y[from]) == Rank::Equal);
        first_decides(x, y, dirs, from + 1, i);
    }
}

proof fn equal_keys_tie(x: Seq<ScalarV>, y: Seq<ScalarV>, dirs: Seq<SortDir>, from: int)
    requires
        0 <= from,
        tied(x, y, dirs.len()),
    ensures
        !sorts_before(x, y, dirs, from),
    decreases dirs.len() - from,
{
    if from < dirs.len() {
        assert(sort_rank(x[from], y[from]) == Rank::Equal);
        equal_keys_tie(x, y, dirs, from + 1);
    }
}

/// A row that sorts before another may precede it.
proof fn before_precedes(keys: Seq<Seq<ScalarV>>, dirs: Seq<SortDir>, x: int, y: int)
    requires
        sorts_before(keys[x], keys[y], dirs, 0),
    ensures
        may_precede(keys, dirs, x, y),
{
    let a = keys[x];
    let b = keys[y];
    assert forall|i: int|
        #![trigger dirs[i]]
        0 <= i < dirs.len() && first_differ(a, b, i) implies ranks_first(a[i], b[i], dirs[i]) by {
        first_decides(a, b, dirs, 0, i);
    }
    if tied(a, b, dirs.len()) {
        equal_keys_tie(a, b, dirs, 0);
    }
}

/// A row may stand behind an earlier one that it does not sort before.
proof fn behind_follows(keys: Seq<Seq<ScalarV>>, dirs: Seq<SortDir>, x: int, y: int)
    requires
        !sorts_before(keys[y], keys[x], dirs, 0),
        x < y,
    ensures
        may_precede(keys, dirs, x, y),
{
    let a = keys[x];
    let b = keys[y];
    assert forall|i: int|
        #![trigger dirs[i]]
        0 <= i < dirs.len() && first_differ(a, b, i) implies ranks_first(a[i], b[i], dirs[i]) by {
        assert forall|j: int| 0 <= j < i implies sort_rank(#[trigger] b[j], a[j]) == Rank::Equal by {
            assert(sort_rank(a[j], b[j]) == Rank::Equal);
            rank_turns(a[j], b[j]);
        }
        rank_turns(a[i], b[i]);
        assert(first_differ(b, a, i));
        first_decides(b, a, dirs, 0, i);
    }
}

/// Each row may stand where it does.
pub open spec fn each_may_follow(
    order: Seq<int>,
    keys: Seq<Seq<ScalarV>>,
    dirs: Seq<SortDir>,
) -> bool {
    forall|k: int|
        #![trigger order[k]]
        0 < k < order.len() ==> may_precede(keys, dirs, order[k - 1], order[k])
}

#[verifier::spinoff_prover]
proof fn put_keeps_order(order: Seq<int>, keys: Seq<Seq<ScalarV>>, dirs: Seq<SortDir>, x: int)
    requires
        each_may_follow(order, keys, dirs),
        forall|k: int| 0 <= k < order.len() ==> #[trigger] order[k] < x,
    ensures
        each_may_follow(put_sorted(order, keys, dirs, x), keys, dirs),
        forall|k: int|
            0 <= k < put_sorted(order, keys, dirs, x).len() ==> #[trigger] put_sorted(
                order,
                keys,
                dirs,
                x,
            )[k] <= x,
        put_sorted(order, keys, dirs, x).len() > 0,
        put_sorted(order, keys, dirs, x).last() == x || (order.len() > 0 && put_sorted(
            order,
            keys,
            dirs,
            x,
        ).last() == order.last()),
    decreases order.len(),
{
    let out = put_sorted(order, keys, dirs, x);
    if order.len() > 0 && sorts_before(keys[x], keys[order.last()], dirs, 0) {
        let less = order.drop_last();
        let inner = put_sorted(less, keys, dirs, x);
        assert forall|k: int|
            #![trigger less[k]]
            0 < k < less.len() implies may_precede(keys, dirs, less[k - 1], less[k]) by {
            assert(order[k] == less[k] && order[k - 1] == less[k - 1]);
        }
        assert forall|k: int| 0 <= k < less.len() implies #[trigger] less[k] < x by {
            assert(order[k] == less[k]);
        }
        put_keeps_order(less, keys, dirs, x);
        assert(out == inner.push(order.last()));
        if inner.last() == x {
            before_precedes(keys, dirs, x, order.last());
        } else {
            assert(order[order.len() - 1] == order.last());
            assert(less.last() == order[order.len() - 2]);
        }
        assert forall|k: int|
            #![trigger out[k]]
            0 < k < out.len() implies may_precede(keys, dirs, out[k - 1], out[k]) by {
            if k < inner.len() {
                assert(inner[k] == out[k] && inner[k - 1] == out[k - 1]);
            }
        }
        assert forall|k: int| 0 <= k < out.len() implies #[trigger] out[k] <= x by {
            if k < inner.len() {
                assert(out[k] == inner[k]);
            } else {
                assert(order[order.len() - 1] < x);
            }
        }
    } else if order.len() > 0 {
        assert(out == order.push(x));
        assert(order[order.len() - 1] == order.last());
        behind_follows(keys, dirs, order.last(), x);
        assert forall|k: int|
            #![trigger out[k]]
            0 < k < out.len() implies may_precede(keys, dirs, out[k - 1], out[k]) by {
            if k < order.len() {
                assert(order[k] == out[k] && order[k - 1] == out[k - 1]);
            }
        }
    }
}

proof fn order_below(keys: Seq<Seq<ScalarV>>, dirs: Seq<SortDir>, n: nat)
    ensures
        each_may_follow(sorted_order(keys, dirs, n), keys, dirs),
        forall|k: int|
            0 <= k < sorted_order(keys, dirs, n).len() ==> #[trigger] sorted_order(keys, dirs, n)[k]
                < n,
    decreases n,
{
    if n > 0 {
        let m = (n - 1) as nat;
        order_below(keys, dirs, m);
        put_keeps_order(sorted_order(keys, dirs, m), keys, dirs, n - 1);
    }
}

/// In the sorted order, the first key in which two neighbours differ ranks
/// less if that key's own direction is ascending, and greater if it is
/// descending. Neighbours with equal keys stand as they came.
pub proof fn neighbours_rank_by_their_first_difference(
    keys: Seq<Seq<ScalarV>>,
    dirs: Seq<SortDir>,
    n: nat,
    k: int,
    i: int,
)
    requires
        0 < k < sorted_order(keys, dirs, n).len(),
        0 <= i < dirs.len(),
        first_differ(
            keys[sorted_order(keys, dirs, n)[k - 1]],
            keys[sorted_order(keys, dirs, n)[k]],
            i,
        ),
    ensures
        ({
            let x = keys[sorted_order(keys, dirs, n)[k - 1]][i];
            let y = keys[sorted_order(keys, dirs, n)[k]][i];
            &&& dirs[i] == SortDir::Asc ==> sort_rank(x, y) == Rank::Less
            &&& dirs[i] == SortDir::Desc ==> sort_rank(x, y) == Rank::Greater
        }),
{
    order_below(keys, dirs, n);
    let order = sorted_order(keys, dirs, n);
    assert(may_precede(keys, dirs, order[k - 1], order[k]));
    let d = dirs[i];
}

/// Rows with equal keys come out in the order in which they came.
pub proof fn sorting_is_stable(keys: Seq<Seq<ScalarV>>, dirs: Seq<SortDir>, n: nat, k: int)
    requires
        0 < k < sorted_order(keys, dirs, n).len(),
        tied(
            keys[sorted_order(keys, dirs, n)[k - 1]],
            keys[sorted_order(keys, dirs, n)[k]],
            dirs.len(),
        ),
    ensures
        sorted_order(keys, dirs, n)[k - 1] < sorted_order(keys, dirs, n)[k],
{
    order_below(keys, dirs, n);
    let order = sorted_order(keys, dirs, n);
    assert(may_precede(keys, dirs, order[k - 1], order[k]));
}

/// Sort keys of different kinds rank null, booleans, numbers, strings,
/// containers.
pub open spec fn kind_place(s: ScalarV) -> int {
    if s is Null {
        1
    } else if s is Bool {
        2
    } else if s is Number {
        3
    } else if s is Str {
        4
    } else {
        5
    }
}

/// How two sort keys rank: across kinds by kind; false before true; numbers
/// by their order; texts by theirs.
pub proof fn sort_keys_rank(a: ScalarV, b: ScalarV)
    ensures
        kind_place(a) < kind_place(b) ==> sort_rank(a, b) == Rank::Less,
        kind_place(a) > kind_place(b) ==> sort_rank(a, b) == Rank::Greater,
        a == b ==> sort_rank(a, b) == Rank::Equal,
        a matches ScalarV::Bool(x) ==> (b matches ScalarV::Bool(y) ==> (sort_rank(a, b)
            == Rank::Less <==> !x && y)),
        a matches ScalarV::Number(x) ==> (b matches ScalarV::Number(y) ==> {
            &&& sort_rank(a, b) == Rank::Less <==> num_lt(x, y)
            &&& sort_rank(a, b) == Rank::Greater <==> num_lt(y, x)
        }),
        a matches ScalarV::Str(x) ==> (b matches ScalarV::Str(y) ==> {
            &&& sort_rank(a, b) == Rank::Less <==> before(x, y)
            &&& sort_rank(a, b) == Rank::Greater <==> before(y, x)
            &&& sort_rank(a, b) == Rank::Equal <==> x == y
        }),
{
    if let (ScalarV::Str(x), ScalarV::Str(y)) = (a, b) {
        text_order(x, y, x);
        text_order(y, x, y);
    }
}

/// Sort key `j` of a row: the first value of its expression, or null.
pub open spec fn sort_key(c: CtxV, keys: Seq<(AstV, SortDir)>, row: RowV, j: int) -> ScalarV {
    let s = run(c, keys[j].0, row.env, row.value);
    scalar(
        c.doc,
        c.n,
        if s.rows.len() > 0 {
            s.rows[0].value
        } else {
            ValueV::Null
        },
    )
}

/// The sort keys of a row.
pub open spec fn sort_keys(c: CtxV, keys: Seq<(AstV, SortDir)>, row: RowV) -> Seq<ScalarV> {
    Seq::new(keys.len(), |j: int| sort_key(c, keys, row, j))
}

/// No sort key of the row runs into an error.
pub open spec fn keys_sound(c: CtxV, keys: Seq<(AstV, SortDir)>, row: RowV) -> bool {
    forall|j: int|
        0 <= j < keys.len() ==> run(c, (#[trigger] keys[j]).0, row.env, row.value).err is None
}

#[verifier::spinoff_prover]
proof fn firsts_are_keys(c: CtxV, keys: Seq<(AstV, SortDir)>, row: RowV)
    requires
        keys_sound(c, keys, row),
    ensures
        sort_firsts(c, keys, row.env, row.value) is Ok,
        scalars_of(c, sort_firsts(c, keys, row.env, row.value)->Ok_0) == sort_keys(c, keys, row),
    decreases keys.len(),
{
    if keys.len() == 0 {
        reveal(sort_firsts);
        assert(scalars_of(c, sort_firsts(c, keys, row.env, row.value)->Ok_0) =~= sort_keys(
            c,
            keys,
            row,
        ));
    } else {
        let less = keys.drop_last();
        assert forall|j: int| 0 <= j < less.len() implies run(
            c,
            (#[trigger] less[j]).0,
            row.env,
            row.value,
        ).err is None by {
            assert(less[j] == keys[j]);
        }
        firsts_are_keys(c, less, row);
        assert(keys[keys.len() - 1] == keys.last());
        let rest = sort_firsts(c, less, row.env, row.value)->Ok_0;
        let s = run(c, keys.last().0, row.env, row.value);
        let o = first(s)->Ok_0;
        assert(sort_firsts(c, keys, row.env, row.value) == Ok::<Seq<Option<ValueV>>, Missing>(
            rest.push(o),
        )) by {
            reveal_with_fuel(sort_firsts, 2);
            reveal(run);
        }
        let all = scalars_of(c, rest.push(o));
        let want = sort_keys(c, keys, row);
        assert(scalars_of(c, rest).len() == less.len());
        assert forall|j: int| 0 <= j < all.len() implies all[j] == want[j] by {
            if j < less.len() {
                assert(all[j] == scalars_of(c, rest)[j]);
                assert(sort_keys(c, less, row)[j] == want[j]);
            }
        }
        assert(all =~= want);
    }
}

#[verifier::spinoff_prover]
pub proof fn table_holds_keys(c: CtxV, keys: Seq<(AstV, SortDir)>, rows: Seq<RowV>)
    requires
        forall|r: int| 0 <= r < rows.len() ==> keys_sound(c, keys, #[trigger] rows[r]),
    ensures
        sort_table(c, keys, rows) == Ok::<Seq<Seq<ScalarV>>, Missing>(
            Seq::new(rows.len(), |r: int| sort_keys(c, keys, rows[r])),
        ),
    decreases rows.len(),
{
    let want = Seq::new(rows.len(), |r: int| sort_keys(c, keys, rows[r]));
    if rows.len() == 0 {
        reveal(sort_table);
        assert(want =~= Seq::empty());
    } else {
        let less = rows.drop_last();
        assert forall|r: int| 0 <= r < less.len() implies keys_sound(c, keys, #[trigger] less[r]) by {
            assert(less[r] == rows[r]);
        }
        table_holds_keys(c, keys, less);
        assert(keys_sound(c, keys, rows[rows.len() - 1]));
        firsts_are_keys(c, keys, rows.last());
        let rest = Seq::new(less.len(), |r: int| sort_keys(c, keys, less[r]));
        assert(sort_table(c, keys, rows) == Ok::<Seq<Seq<ScalarV>>, Missing>(
            rest.push(sort_keys(c, keys, rows.last())),
        )) by {
            reveal_with_fuel(sort_table, 2);
            reveal(sort_firsts);
        }
        assert(rest.push(sort_keys(c, keys, rows.last())) =~= want);
    }
}

/// The rows `out` are the rows `rows` in the order `order`, and neighbours
/// rank by the first key in which they differ, in that key's direction.
pub open spec fn sorted_by(
    c: CtxV,
    keys: Seq<(AstV, SortDir)>,
    rows: Seq<RowV>,
    out: Seq<RowV>,
    order: Seq<int>,
) -> bool {
    &&& order.to_multiset() == Seq::new(rows.len(), |i: int| i).to_multiset()
    &&& out.len() == rows.len() == order.len()
    &&& forall|k: int| 0 <= k < out.len() ==> (#[trigger] out[k]).value == rows[order[k]].value
    &&& forall|k: int, i: int|
        0 < k < out.len() && 0 <= i < keys.len() && #[trigger] first_differ(
            sort_keys(c, keys, rows[order[k - 1]]),
            sort_keys(c, keys, rows[order[k]]),
            i,
        ) ==> ranks_first(
            sort_key(c, keys, rows[order[k - 1]], i),
            sort_key(c, keys, rows[order[k]], i),
            keys[i].1,
        )
    &&& forall|k: int|
        0 < k < out.len() && #[trigger] tied(
            sort_keys(c, keys, rows[order[k - 1]]),
            sort_keys(c, keys, rows[order[k]]),
            keys.len(),
        ) ==> order[k - 1] < order[k]
}

/// `order by` gives every row once. The first key in which neighbours differ
/// ranks in that key's own direction, and rows with equal keys stay in order.
#[verifier::spinoff_prover]
pub proof fn order_by_sorts(c: CtxV, keys: Seq<(AstV, SortDir)>, env: EnvV, s: StreamV)
    requires
        c.cap is None,
        s.err is None,
        forall|r: int| 0 <= r < s.rows.len() ==> keys_sound(c, keys, #[trigger] s.rows[r]),
    ensures
        after(c, AstV::SortBy(keys), env, s).err is None,
        exists|order: Seq<int>|
            sorted_by(c, keys, s.rows, after(c, AstV::SortBy(keys), env, s).rows, order),
{
    let rows = s.rows;
    let t = Seq::new(rows.len(), |r: int| sort_keys(c, keys, rows[r]));
    let dirs = dirs_of(keys);
    let order = sorted_order(t, dirs, rows.len());
    table_holds_keys(c, keys, rows);
    assert(after(c, AstV::SortBy(keys), env, s) == in_order(c, t, dirs, None, env, rows)) by {
        reveal(after);
        reveal(sorted);
        reveal(sort_table);
    }
    let out = after(c, AstV::SortBy(keys), env, s).rows;
    sorting_keeps_every_row(t, dirs, rows.len());
    order_below(t, dirs, rows.len());
    order_in_range(t, dirs, rows.len());
    assert forall|k: int| 0 < k < out.len() implies {
        &&& #[trigger] order[k] < rows.len()
        &&& may_precede(t, dirs, order[k - 1], order[k])
        &&& t[order[k]] == sort_keys(c, keys, rows[order[k]])
        &&& t[order[k - 1]] == sort_keys(c, keys, rows[order[k - 1]])
    } by {
        let a = order[k - 1];
    }
    assert forall|k: int, i: int|
        0 < k < out.len() && 0 <= i < keys.len() && #[trigger] first_differ(
            sort_keys(c, keys, rows[order[k - 1]]),
            sort_keys(c, keys, rows[order[k]]),
            i,
        ) implies ranks_first(
        sort_key(c, keys, rows[order[k - 1]], i),
        sort_key(c, keys, rows[order[k]], i),
        keys[i].1,
    ) by {
        assert(order[k] < rows.len());
        assert(dirs[i] == keys[i].1);
    }
    assert forall|k: int|
        0 < k < out.len() && #[trigger] tied(
            sort_keys(c, keys, rows[order[k - 1]]),
            sort_keys(c, keys, rows[order[k]]),
            keys.len(),
        ) implies order[k - 1] < order[k] by {
        assert(order[k] < rows.len());
    }
    assert(sorted_by(c, keys, rows, out, order));
}

proof fn order_in_range(keys: Seq<Seq<ScalarV>>, dirs: Seq<SortDir>, n: nat)
    ensures
        forall|k: int|
            0 <= k < sorted_order(keys, dirs, n).len() ==> 0 <= #[trigger] sorted_order(
                keys,
                dirs,
                n,
            )[k] < n,
{
    broadcast use vstd::seq_lib::group_to_multiset_ensures;

    let order = sorted_order(keys, dirs, n);
    let places = Seq::new(n, |i: int| i);
    sorting_keeps_every_row(keys, dirs, n);
    assert forall|k: int| 0 <= k < order.len() implies 0 <= #[trigger] order[k] < n by {
        assert(order.to_multiset().count(order[k]) > 0) by {
            assert(order.contains(order[k]));
        }
        assert(places.contains(order[k]));
    }
}

/// The smaller of a number and a bound, where there is one.
pub open spec fn bounded(n: nat, b: Option<nat>) -> nat {
    match b {
        Some(k) => if k < n {
            k
        } else {
            n
        },
        None => n,
    }
}

/// Of sorted rows the first are taken, as many as the limit and the caller let
/// through.
pub proof fn sorted_rows_are_cut_at_the_end(
    c: CtxV,
    keys: Seq<Seq<ScalarV>>,
    dirs: Seq<SortDir>,
    limit: Option<nat>,
    env: EnvV,
    rows: Seq<RowV>,
)
    ensures
        ({
            let all = in_order(CtxV { cap: None, ..c }, keys, dirs, None, env, rows).rows;
            let n = bounded(bounded(all.len(), limit), c.cap);
            in_order(c, keys, dirs, limit, env, rows).rows == all.take(n as int)
        }),
{
    let all = in_order(CtxV { cap: None, ..c }, keys, dirs, None, env, rows).rows;
    let n = bounded(bounded(all.len(), limit), c.cap);
    sorting_keeps_every_row(keys, dirs, rows.len());
    assert(in_order(c, keys, dirs, limit, env, rows).rows =~= all.take(n as int));
}

} // verus!
