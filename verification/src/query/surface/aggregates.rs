//! What compiled aggregates mean: which reductions their outputs read, and by
//! what their rows are grouped.
use vstd::prelude::*;

use super::super::ast::{AggGroupV, AggOutputV, AggReductionV, AstV, ReducerOp};
use super::super::QueryFault;
use super::ast::{
    AggBlockItemV, AggOp, AggregateBlockV, AliasLetV, ExprV, PathExprV, PathRootV, PathSegV,
};
use super::lowering::{
    canon_opt, key_label, label_or, let_named, lets_fault, lowered, lowered_all, lowered_block,
    lowered_block_items, lowered_groups, lowered_item, lowered_one, lowered_opt, lowered_output,
    lowered_roll, piped, reduction_place, same_reduction, with_reduction, ScopeV,
};

verus! {

/// The reduction that a name stands for.
pub open spec fn stands_for(op: AggOp, r: ReducerOp) -> bool {
    match r {
        ReducerOp::Sum => op == AggOp::Sum,
        ReducerOp::Count => op == AggOp::Count,
        ReducerOp::Avg => op == AggOp::Avg,
        ReducerOp::Min => op == AggOp::Min,
        ReducerOp::Max => op == AggOp::Max,
    }
}

proof fn place_in_range(
    v: Seq<AggReductionV>,
    op: ReducerOp,
    value: Option<Box<AstV>>,
    cond: Option<Box<AstV>>,
    i: int,
)
    requires
        0 <= i,
    ensures
        reduction_place(v, op, value, cond, i) matches Some(k) ==> i <= k < v.len()
            && same_reduction(v[k], op, value, cond),
    decreases v.len() - i,
{
    if i < v.len() && !same_reduction(v[i], op, value, cond) {
        place_in_range(v, op, value, cond, i + 1);
    }
}

/// The tree of an argument, where there is one.
pub open spec fn argument(arg: Option<Box<ExprV>>, s: ScopeV) -> Option<Box<AstV>> {
    match arg {
        Some(x) => Some(Box::new(lowered(*x, s)->Ok_0)),
        None => None,
    }
}

/// The reduction reads this argument under this condition: it is written like
/// them.
pub open spec fn reads(
    r: AggReductionV,
    value: Option<Box<AstV>>,
    cond: Option<Box<AstV>>,
) -> bool {
    canon_opt(r.value) + "|"@ + canon_opt(r.where_pred) == canon_opt(value) + "|"@ + canon_opt(cond)
}

/// A reducer in an output is a slot of the reductions, that of its own name,
/// argument and condition. Reductions that were there stay where they were,
/// and one more comes at most.
#[verifier::spinoff_prover]
pub proof fn reducers_have_their_slot(
    op: AggOp,
    arg: Option<Box<ExprV>>,
    v: Seq<AggReductionV>,
    cond: Option<Box<AstV>>,
    item: Seq<char>,
    s: ScopeV,
)
    requires
        v.len() < usize::MAX,
        arg matches Some(x) ==> lowered(*x, s) is Ok,
    ensures
        lowered_output(ExprV::Reducer { op, arg }, v, cond, item, s) matches Ok((slot, w)) && (
        slot matches AstV::ReducerSlot(i) && {
            &&& i < w.len()
            &&& stands_for(op, w[i as int].op)
            &&& reads(w[i as int], argument(arg, s), cond)
            &&& w == v || (w == v.push(w.last()) && i == v.len() && w.last().value == argument(
                arg,
                s,
            ) && w.last().where_pred == cond)
        }),
{
    reveal(lowered_output);
    reveal(lowered);
    let r = super::lowering::reducer_op(op);
    place_in_range(v, r, argument(arg, s), cond, 0);
    let out = with_reduction(v, r, argument(arg, s), cond, item);
    assert(lowered_output(ExprV::Reducer { op, arg }, v, cond, item, s) == Ok::<
        (AstV, Seq<AggReductionV>),
        QueryFault,
    >(out));
    if reduction_place(v, r, argument(arg, s), cond, 0) is None {
        assert(out.1 == v.push(out.1.last()));
        assert(out.1[v.len() as int] == out.1.last());
    }
}

/// How a block groups: not at all without keys, by the one key where there is
/// one, by all of them together where there are several, and by each of their
/// prefixes in a rollup.
#[verifier::spinoff_prover]
pub proof fn blocks_group_by_their_keys(v: Seq<ExprV>, rollup: bool, s: ScopeV)
    requires
        forall|i: int| 0 <= i < v.len() ==> lowered(#[trigger] v[i], s) is Ok,
    ensures
        match lowered_groups(v, rollup, s) {
            Ok(None) => !rollup && v.len() == 0,
            Ok(Some(AggGroupV::Single { name, key })) => !rollup && v.len() > 0 && if v.len() == 1 {
                lowered(v[0], s) == Ok::<AstV, QueryFault>(*key)
            } else {
                *key matches AstV::KeyTuple(parts) && parts.len() == v.len() && forall|i: int|
                    0 <= i < v.len() ==> lowered(#[trigger] v[i], s) == Ok::<AstV, QueryFault>(
                        parts[i],
                    )
            },
            Ok(Some(AggGroupV::Rollup(keys))) => rollup && keys.len() == v.len() && forall|i: int|
                0 <= i < v.len() ==> lowered(#[trigger] v[i], s) == Ok::<AstV, QueryFault>(
                    *keys[i].key,
                ),
            Err(_) => false,
        },
{
    groups_unfold(v, rollup, s);
    if rollup {
        roll_trees(v, s);
    } else if v.len() > 1 {
        all_trees(v, s);
    } else if v.len() == 1 {
        assert(lowered(v[0], s) is Ok);
    }
}

#[verifier::spinoff_prover]
proof fn groups_unfold(v: Seq<ExprV>, rollup: bool, s: ScopeV)
    ensures
        lowered_groups(v, rollup, s) == if rollup {
            match lowered_roll(v, s) {
                Err(e) => Err::<Option<AggGroupV>, QueryFault>(e),
                Ok(k) => Ok(Some(AggGroupV::Rollup(k))),
            }
        } else if v.len() == 0 {
            Ok(None)
        } else if v.len() == 1 {
            match lowered(v[0], s) {
                Err(e) => Err(e),
                Ok(x) => Ok(
                    Some(
                        AggGroupV::Single {
                            name: label_or(key_label(v[0]), "key"@),
                            key: Box::new(x),
                        },
                    ),
                ),
            }
        } else {
            match lowered_all(v, s) {
                Err(e) => Err(e),
                Ok(x) => Ok(
                    Some(
                        AggGroupV::Single {
                            name: label_or(key_label(v[0]), "key"@),
                            key: Box::new(AstV::KeyTuple(x)),
                        },
                    ),
                ),
            }
        },
{
    reveal(lowered_groups);
    reveal(lowered_roll);
    reveal(lowered_one);
    reveal(lowered_all);
    reveal(lowered);
}

#[verifier::spinoff_prover]
proof fn roll_trees(v: Seq<ExprV>, s: ScopeV)
    requires
        forall|i: int| 0 <= i < v.len() ==> lowered(#[trigger] v[i], s) is Ok,
    ensures
        lowered_roll(v, s) matches Ok(keys) && keys.len() == v.len() && forall|i: int|
            0 <= i < v.len() ==> lowered(#[trigger] v[i], s) == Ok::<AstV, QueryFault>(
                *keys[i].key,
            ),
    decreases v.len(),
{
    if v.len() == 0 {
        reveal(lowered_roll);
    } else {
        let less = v.drop_last();
        assert forall|i: int| 0 <= i < less.len() implies lowered(#[trigger] less[i], s) is Ok by {
            assert(less[i] == v[i]);
        }
        roll_trees(less, s);
        assert(lowered(v[v.len() - 1], s) is Ok);
        let rest = lowered_roll(less, s)->Ok_0;
        reveal_with_fuel(lowered_roll, 2);
        reveal(lowered);
        let keys = lowered_roll(v, s)->Ok_0;
        assert(lowered_roll(v, s) is Ok);
        assert(keys.len() == v.len());
        assert forall|i: int| 0 <= i < v.len() implies lowered(#[trigger] v[i], s) == Ok::<
            AstV,
            QueryFault,
        >(*keys[i].key) by {
            if i < less.len() {
                assert(less[i] == v[i] && keys[i] == rest[i]);
            }
        }
    }
}

#[verifier::spinoff_prover]
proof fn all_trees(v: Seq<ExprV>, s: ScopeV)
    requires
        forall|i: int| 0 <= i < v.len() ==> lowered(#[trigger] v[i], s) is Ok,
    ensures
        lowered_all(v, s) matches Ok(x) && x.len() == v.len() && forall|i: int|
            0 <= i < v.len() ==> lowered(#[trigger] v[i], s) == Ok::<AstV, QueryFault>(x[i]),
    decreases v.len(),
{
    if v.len() == 0 {
        reveal(lowered_all);
    } else {
        let less = v.drop_last();
        assert forall|i: int| 0 <= i < less.len() implies lowered(#[trigger] less[i], s) is Ok by {
            assert(less[i] == v[i]);
        }
        all_trees(less, s);
        assert(lowered(v[v.len() - 1], s) is Ok);
        let rest = lowered_all(less, s)->Ok_0;
        reveal_with_fuel(lowered_all, 2);
        reveal(lowered);
        let x = lowered_all(v, s)->Ok_0;
        assert(lowered_all(v, s) is Ok);
        assert forall|i: int| 0 <= i < v.len() implies lowered(#[trigger] v[i], s) == Ok::<
            AstV,
            QueryFault,
        >(x[i]) by {
            if i < less.len() {
                assert(less[i] == v[i] && x[i] == rest[i]);
            }
        }
    }
}

/// The name of a `let` stands for its expression, in which only the names
/// before it are known.
#[verifier::spinoff_prover]
pub proof fn names_of_let_stand_for_their_expression(n: Seq<char>, s: ScopeV, i: int)
    requires
        0 <= i < s.lets.len(),
        s.lets[i].name == n,
        forall|j: int| 0 <= j < i ==> (#[trigger] s.lets[j]).name != n,
    ensures
        lowered(
            ExprV::Path(PathExprV { root: PathRootV::Name(n), segments: Seq::empty() }),
            s,
        ) == lowered(s.lets[i].expr, s.with_lets(s.lets.take(i))),
{
    first_let(s.lets, n, 0, i);
    reveal_with_fuel(lowered, 2);
}

proof fn first_let(l: Seq<AliasLetV>, n: Seq<char>, from: int, i: int)
    requires
        0 <= from <= i < l.len(),
        l[i].name == n,
        forall|j: int| from <= j < i ==> (#[trigger] l[j]).name != n,
    ensures
        let_named(l, n, from) == Some(i),
    decreases i - from,
{
    if from < i {
        assert(l[from].name != n);
        first_let(l, n, from + 1, i);
    }
}

/// An aggregate block has the groups of its keys and the outputs of its items,
/// in their order and under their names, and stands behind the rows.
#[verifier::spinoff_prover]
pub proof fn blocks_have_their_groups_and_outputs(
    b: AggregateBlockV,
    l: Seq<AliasLetV>,
    a: AstV,
    s: ScopeV,
)
    ensures
        lowered_block(b, l, a, s) matches Ok(x) ==> exists|
            g: Option<AggGroupV>,
            r: Seq<AggReductionV>,
            o: Seq<(Seq<char>, AggOutputV)>,
        |
            {
                &&& x == piped(
                    a,
                    #[trigger] block_stage(g, r, o),
                )
                &&& lowered_groups(b.group_by, b.rollup, s) == Ok::<
                    Option<AggGroupV>,
                    QueryFault,
                >(g)
                &&& o.len() == b.reductions.len()
                &&& forall|i: int| 0 <= i < o.len() ==> (#[trigger] o[i]).0 == b.reductions[i].name
            },
{
    block_unfold(b, l, a, s);
    items_in_order(b.reductions, s.with_lets(l));
    if let Ok(x) = lowered_block(b, l, a, s) {
        let g = lowered_groups(b.group_by, b.rollup, s)->Ok_0;
        let y = lowered_block_items(b.reductions, s.with_lets(l))->Ok_0;
        assert(x == piped(a, block_stage(g, y.1, y.0)));
    }
}

#[verifier::spinoff_prover]
proof fn block_unfold(b: AggregateBlockV, l: Seq<AliasLetV>, a: AstV, s: ScopeV)
    ensures
        lowered_block(b, l, a, s) == match lets_fault(l, s.aliases, l.len()) {
            Some(e) => Err::<AstV, QueryFault>(e),
            None => match lowered_groups(b.group_by, b.rollup, s) {
                Err(e) => Err(e),
                Ok(g) => match lowered_block_items(b.reductions, s.with_lets(l)) {
                    Err(e) => Err(e),
                    Ok(x) => Ok(piped(a, block_stage(g, x.1, x.0))),
                },
            },
        },
{
    reveal(lowered_block);
    reveal(lowered_groups);
    reveal(lowered_block_items);
}

/// The stage of a block.
pub open spec fn block_stage(
    g: Option<AggGroupV>,
    r: Seq<AggReductionV>,
    o: Seq<(Seq<char>, AggOutputV)>,
) -> AstV {
    AstV::AggregateBlock { group: g, reductions: r, outputs: o }
}

#[verifier::spinoff_prover]
proof fn items_in_order(v: Seq<AggBlockItemV>, s: ScopeV)
    ensures
        lowered_block_items(v, s) matches Ok(x) ==> x.0.len() == v.len() && forall|i: int|
            0 <= i < v.len() ==> (#[trigger] x.0[i]).0 == v[i].name,
    decreases v.len(),
{
    if v.len() == 0 {
        reveal(lowered_block_items);
    } else {
        let less = v.drop_last();
        items_in_order(less, s);
        reveal_with_fuel(lowered_block_items, 2);
        reveal(lowered_item);
        reveal(lowered_opt);
        if let Ok(x) = lowered_block_items(v, s) {
            let rest = lowered_block_items(less, s)->Ok_0;
            assert forall|i: int| 0 <= i < v.len() implies (#[trigger] x.0[i]).0 == v[i].name by {
                if i < less.len() {
                    assert(x.0[i] == rest.0[i]);
                }
            }
        }
    }
}

/// The tree of an expression that may be missing.
pub open spec fn optional(o: Option<ExprV>, s: ScopeV) -> Option<Box<AstV>> {
    match o {
        Some(e) => Some(Box::new(lowered(e, s)->Ok_0)),
        None => None,
    }
}

#[verifier::spinoff_prover]
proof fn optional_trees(o: Option<ExprV>, s: ScopeV)
    requires
        o matches Some(e) ==> lowered(e, s) is Ok,
    ensures
        lowered_opt(o, s) == Ok::<Option<Box<AstV>>, QueryFault>(optional(o, s)),
{
    reveal(lowered_opt);
    reveal(lowered_one);
    reveal(lowered);
}

/// An item of a block that is a reducer reads the reduction of that name, of
/// its argument, over the rows of which its condition holds; its default and
/// its name are its own.
#[verifier::spinoff_prover]
pub proof fn items_reduce_under_their_condition(
    v: Seq<AggBlockItemV>,
    x: AggBlockItemV,
    op: AggOp,
    arg: Option<Box<ExprV>>,
    s: ScopeV,
)
    requires
        x.output == (ExprV::Reducer { op, arg }),
        arg matches Some(e) ==> lowered(*e, s) is Ok,
        x.where_pred matches Some(e) ==> lowered(e, s) is Ok,
        x.default matches Some(e) ==> lowered(e, s) is Ok,
        lowered_block_items(v, s) is Ok,
        lowered_block_items(v, s)->Ok_0.1.len() < usize::MAX,
    ensures
        lowered_block_items(v.push(x), s) matches Ok((o, w)) && {
            &&& o == lowered_block_items(v, s)->Ok_0.0.push(o.last())
            &&& o.last().0 == x.name
            &&& o.last().1 matches AggOutputV::Leaf { expr, default } && {
                &&& default == optional(x.default, s)
                &&& *expr matches AstV::ReducerSlot(i) && {
                    &&& i < w.len()
                    &&& stands_for(op, w[i as int].op)
                    &&& reads(w[i as int], argument(arg, s), optional(x.where_pred, s))
                }
            }
        },
{
    let all = v.push(x);
    let rest = lowered_block_items(v, s)->Ok_0;
    let cond = optional(x.where_pred, s);
    let default = optional(x.default, s);
    assert(all.drop_last() =~= v);
    assert(all.last() == x);
    optional_trees(x.where_pred, s);
    optional_trees(x.default, s);
    reducers_have_their_slot(op, arg, rest.1, cond, x.name, s);
    let out = lowered_output(x.output, rest.1, cond, x.name, s)->Ok_0;
    let leaf = AggOutputV::Leaf { expr: Box::new(out.0), default };
    assert(lowered_item(
        x.output,
        Ok(default),
        rest.1,
        cond,
        x.name,
        s,
    ) == Ok::<(AggOutputV, Seq<AggReductionV>), QueryFault>((leaf, out.1))) by {
        reveal(lowered_item);
        reveal(lowered_output);
    }
    assert(lowered_block_items(all, s) == Ok::<
        (Seq<(Seq<char>, AggOutputV)>, Seq<AggReductionV>),
        QueryFault,
    >((rest.0.push((x.name, leaf)), out.1))) by {
        reveal_with_fuel(lowered_block_items, 2);
        reveal(lowered_item);
        reveal(lowered_opt);
    }
}

/// The column of a group's key is called after the last field of its path, or
/// after the alias; other keys have a name of their own.
#[verifier::spinoff_prover]
pub proof fn key_columns_have_their_name(e: ExprV, s: ScopeV, n: Seq<char>)
    requires
        lowered(e, s) is Ok,
        match e {
            ExprV::Path(p) => if p.segments.len() == 0 {
                p.root == PathRootV::Name(n)
            } else {
                p.segments.last() == PathSegV::Field(n)
            },
            _ => n == seq!['k', 'e', 'y'],
        },
    ensures
        lowered_groups(seq![e], false, s) matches Ok(Some(AggGroupV::Single { name, key })) && name
            == n && lowered(e, s) == Ok::<AstV, QueryFault>(*key),
{
    reveal_strlit("key");
    assert("key"@ =~= seq!['k', 'e', 'y']);
    let v = seq![e];
    assert(v[0] == e);
    groups_unfold(v, false, s);
}

} // verus!
