//! What compiled conditions mean: what holds of a row, in terms of the values
//! that the parts of a condition have there.
use vstd::prelude::*;

use super::super::ast::{AstV, CompareOp, JsonTypeKind};
use super::super::evaluator::calling::calls_take_first_values;
use super::super::evaluator::compare::compared;
use super::super::evaluator::functions::called;
use super::super::evaluator::joining::{firsts_are_parts, part_at, parts_at};
use super::super::evaluator::laws::{
    exists_asks_for_a_value, field_compare_holds, field_set_compares_each_field, passes,
};
use super::super::evaluator::model::{
    all_of, any_true, broken, flag, has_true, names_of, object_of, one, or_null, values_of, CtxV,
    EnvV, RowV, StreamV,
};
use super::super::evaluator::reaching::{each_of_one, pipe_runs_on_each_row, row_stage};
use super::super::evaluator::semantics::{
    comparisons, firsts, followed, named_firsts, run, type_tests,
};
use super::super::number::{finite, zero, NumOp};
use super::super::value::{number_of, scalar, truthy, type_of, ValueV};
use super::super::QueryFault;
use super::super::ast::BinaryOp;
use super::ast::{ExprV, LitV, ObjectFieldV, QueryV};
use super::clauses::{columns_are_parts, filter_each, passing, settled};
use super::lowering::{
    entry_names, field_compares, in_chain, in_step, lowered, lowered_all, lowered_fields,
    lowered_in, member_test, nested, one_target, param_named, piped, put_entry, set_compare, ParamV,
    ScopeV,
};

use crate::document::NodeKind;
use crate::sidecar::utf8_of;

verus! {

/// An expression compiles.
pub open spec fn compiles(e: ExprV, s: ScopeV) -> bool {
    lowered(e, s) is Ok
}

/// What a compiled expression gives on a row.
pub open spec fn outcome_of(c: CtxV, e: ExprV, s: ScopeV, env: EnvV, v: ValueV) -> StreamV {
    run(c, lowered(e, s)->Ok_0, env, v)
}

/// The expression compiles, and has exactly one value on the row.
pub open spec fn has_value(c: CtxV, e: ExprV, s: ScopeV, env: EnvV, v: ValueV, x: ValueV) -> bool {
    &&& compiles(e, s)
    &&& outcome_of(c, e, s, env, v).err is None
    &&& outcome_of(c, e, s, env, v).rows.len() == 1
    &&& outcome_of(c, e, s, env, v).rows[0].value == x
}

/// The condition compiles, and runs into no error on the row.
pub open spec fn decided(c: CtxV, e: ExprV, s: ScopeV, env: EnvV, v: ValueV) -> bool {
    compiles(e, s) && outcome_of(c, e, s, env, v).err is None
}

/// The compiled condition holds of the row.
pub open spec fn holds(c: CtxV, e: ExprV, s: ScopeV, env: EnvV, v: ValueV) -> bool {
    passes(c, lowered(e, s)->Ok_0, env, v)
}

/// The values of two scalars compare.
pub open spec fn compares(c: CtxV, x: ValueV, op: CompareOp, y: ValueV) -> bool {
    compared(scalar(c.doc, c.n, x), op, scalar(c.doc, c.n, y))
}

proof fn one_flag(c: CtxV, s: StreamV, b: bool)
    requires
        s.rows.len() == 1,
        s.rows[0].value == ValueV::Bool(b),
    ensures
        has_true(c.doc, s.rows) == b,
{
    assert(truthy(c.doc, s.rows[0].value) == b);
}

/// A comparison of two expressions with one value each.
#[verifier::spinoff_prover]
proof fn compare_run(
    c: CtxV,
    l: AstV,
    op: CompareOp,
    r: AstV,
    env: EnvV,
    v: ValueV,
    x: ValueV,
    y: ValueV,
)
    requires
        run(c, l, env, v).err is None,
        run(c, l, env, v).rows.len() == 1,
        run(c, l, env, v).rows[0].value == x,
        run(c, r, env, v).err is None,
        run(c, r, env, v).rows.len() == 1,
        run(c, r, env, v).rows[0].value == y,
    ensures
        run(c, AstV::Compare(Box::new(l), op, Box::new(r)), env, v) == one(
            env,
            ValueV::Bool(compares(c, x, op, y)),
        ),
        passes(c, AstV::Compare(Box::new(l), op, Box::new(r)), env, v) == compares(c, x, op, y),
{
    let a = AstV::Compare(Box::new(l), op, Box::new(r));
    let p = values_of(run(c, l, env, v).rows);
    let q = values_of(run(c, r, env, v).rows);
    assert(p =~= seq![x]);
    assert(q =~= seq![y]);
    assert(run(c, a, env, v) == all_of(env, comparisons(c, p, op, q))) by {
        reveal(run);
    }
    assert(p.drop_last() =~= Seq::empty());
    assert(comparisons(c, p.drop_last(), op, q) == Seq::<ValueV>::empty());
    assert(comparisons(c, p, op, q) =~= seq![ValueV::Bool(compares(c, x, op, y))]);
    assert(run(c, a, env, v).rows =~= one(env, ValueV::Bool(compares(c, x, op, y))).rows);
    one_flag(c, run(c, a, env, v), compares(c, x, op, y));
}

#[verifier::spinoff_prover]
proof fn and_run(c: CtxV, l: AstV, r: AstV, env: EnvV, v: ValueV)
    requires
        run(c, l, env, v).err is None,
        run(c, r, env, v).err is None,
    ensures
        run(c, AstV::And(Box::new(l), Box::new(r)), env, v) == one(
            env,
            ValueV::Bool(passes(c, l, env, v) && passes(c, r, env, v)),
        ),
        passes(c, AstV::And(Box::new(l), Box::new(r)), env, v) == (passes(c, l, env, v) && passes(
            c,
            r,
            env,
            v,
        )),
{
    let a = AstV::And(Box::new(l), Box::new(r));
    let b = passes(c, l, env, v) && passes(c, r, env, v);
    let here = any_true(c.doc, run(c, l, env, v));
    assert(run(c, a, env, v) == match here {
        Ok(true) => flag(env, any_true(c.doc, run(c, r, env, v))),
        x => flag(env, x),
    }) by {
        reveal(run);
    }
    assert(run(c, a, env, v) == one(env, ValueV::Bool(b)));
    one_flag(c, run(c, a, env, v), b);
}

#[verifier::spinoff_prover]
proof fn or_run(c: CtxV, l: AstV, r: AstV, env: EnvV, v: ValueV)
    requires
        run(c, l, env, v).err is None,
        run(c, r, env, v).err is None,
    ensures
        run(c, AstV::Or(Box::new(l), Box::new(r)), env, v) == one(
            env,
            ValueV::Bool(passes(c, l, env, v) || passes(c, r, env, v)),
        ),
        passes(c, AstV::Or(Box::new(l), Box::new(r)), env, v) == (passes(c, l, env, v) || passes(
            c,
            r,
            env,
            v,
        )),
{
    let a = AstV::Or(Box::new(l), Box::new(r));
    let b = passes(c, l, env, v) || passes(c, r, env, v);
    let here = any_true(c.doc, run(c, l, env, v));
    assert(run(c, a, env, v) == match here {
        Ok(false) => flag(env, any_true(c.doc, run(c, r, env, v))),
        x => flag(env, x),
    }) by {
        reveal(run);
    }
    assert(run(c, a, env, v) == one(env, ValueV::Bool(b)));
    one_flag(c, run(c, a, env, v), b);
}

#[verifier::spinoff_prover]
proof fn lowered_compare(l: ExprV, op: CompareOp, r: ExprV, s: ScopeV)
    requires
        compiles(l, s),
        compiles(r, s),
    ensures
        lowered(ExprV::Compare(Box::new(l), op, Box::new(r)), s) == Ok::<AstV, QueryFault>(
            AstV::Compare(Box::new(lowered(l, s)->Ok_0), op, Box::new(lowered(r, s)->Ok_0)),
        ),
{
    reveal(lowered);
}

/// A comparison holds of a row exactly if the values of its sides compare.
pub proof fn comparisons_compare_values(
    c: CtxV,
    l: ExprV,
    op: CompareOp,
    r: ExprV,
    s: ScopeV,
    env: EnvV,
    v: ValueV,
    x: ValueV,
    y: ValueV,
)
    requires
        has_value(c, l, s, env, v, x),
        has_value(c, r, s, env, v, y),
    ensures
        decided(c, ExprV::Compare(Box::new(l), op, Box::new(r)), s, env, v),
        holds(c, ExprV::Compare(Box::new(l), op, Box::new(r)), s, env, v) == compares(c, x, op, y),
{
    lowered_compare(l, op, r, s);
    compare_run(c, lowered(l, s)->Ok_0, op, lowered(r, s)->Ok_0, env, v, x, y);
}

/// The items of a list have these values on the row.
pub open spec fn have_values(
    c: CtxV,
    items: Seq<ExprV>,
    s: ScopeV,
    env: EnvV,
    v: ValueV,
    xs: Seq<ValueV>,
) -> bool {
    &&& items.len() == xs.len()
    &&& forall|i: int|
        0 <= i < items.len() ==> has_value(c, #[trigger] items[i], s, env, v, xs[i])
}

/// One of these values equals `x`.
pub open spec fn some_equal(c: CtxV, x: ValueV, xs: Seq<ValueV>) -> bool {
    exists|i: int| 0 <= i < xs.len() && compares(c, x, CompareOp::Eq, #[trigger] xs[i])
}

#[verifier::spinoff_prover]
proof fn chain_step(l: AstV, items: Seq<ExprV>, negated: bool, s: ScopeV)
    ensures
        in_chain(l, items, negated, s) == if items.len() == 0 {
            Ok::<Option<AstV>, QueryFault>(None)
        } else {
            match in_chain(l, items.drop_last(), negated, s) {
                Err(e) => Err(e),
                Ok(acc) => match lowered(items.last(), s) {
                    Err(e) => Err(e),
                    Ok(r) => Ok(Some(in_step(acc, l, r, negated))),
                },
            }
        },
{
    reveal_with_fuel(in_chain, 2);
    reveal(lowered);
}

/// The chain of comparisons that a membership test is.
#[verifier::spinoff_prover]
proof fn chain_holds(
    c: CtxV,
    l: AstV,
    items: Seq<ExprV>,
    negated: bool,
    s: ScopeV,
    env: EnvV,
    v: ValueV,
    x: ValueV,
    xs: Seq<ValueV>,
)
    requires
        run(c, l, env, v).err is None,
        run(c, l, env, v).rows.len() == 1,
        run(c, l, env, v).rows[0].value == x,
        have_values(c, items, s, env, v, xs),
        items.len() > 0,
    ensures
        in_chain(l, items, negated, s) matches Ok(Some(a)) && run(c, a, env, v).err is None && passes(
            c,
            a,
            env,
            v,
        ) == (some_equal(c, x, xs) != negated),
    decreases items.len(),
{
    let less = items.drop_last();
    let ys = xs.drop_last();
    let m = items.len() - 1;
    let r = lowered(items[m], s)->Ok_0;
    let op = if negated {
        CompareOp::Ne
    } else {
        CompareOp::Eq
    };
    let last = AstV::Compare(Box::new(l), op, Box::new(r));
    chain_step(l, items, negated, s);
    assert(has_value(c, items[m], s, env, v, xs[m]));
    compare_run(c, l, op, r, env, v, x, xs[m]);
    let here = compares(c, x, CompareOp::Eq, xs[m]);
    assert(passes(c, last, env, v) == (here != negated));
    if m == 0 {
        chain_step(l, less, negated, s);
        assert(some_equal(c, x, xs) == here) by {
            if here {
                assert(compares(c, x, CompareOp::Eq, xs[0]));
            }
        }
    } else {
        assert forall|i: int| 0 <= i < less.len() implies has_value(
            c,
            #[trigger] less[i],
            s,
            env,
            v,
            ys[i],
        ) by {
            assert(less[i] == items[i]);
        }
        chain_holds(c, l, less, negated, s, env, v, x, ys);
        let acc = in_chain(l, less, negated, s)->Ok_0->0;
        assert(some_equal(c, x, xs) == (some_equal(c, x, ys) || here)) by {
            if some_equal(c, x, ys) {
                let i = choose|i: int|
                    0 <= i < ys.len() && compares(c, x, CompareOp::Eq, #[trigger] ys[i]);
                assert(compares(c, x, CompareOp::Eq, xs[i]));
            }
            if here {
                assert(compares(c, x, CompareOp::Eq, xs[m]));
            }
            if some_equal(c, x, xs) {
                let i = choose|i: int|
                    0 <= i < xs.len() && compares(c, x, CompareOp::Eq, #[trigger] xs[i]);
                if i < m {
                    assert(compares(c, x, CompareOp::Eq, ys[i]));
                }
            }
        }
        if negated {
            and_run(c, acc, last, env, v);
        } else {
            or_run(c, acc, last, env, v);
        }
    }
}

#[verifier::spinoff_prover]
proof fn lowered_membership(l: ExprV, items: Seq<ExprV>, s: ScopeV, negated: bool)
    requires
        compiles(l, s),
    ensures
        ({
            let r = ExprV::Array(items);
            let e = if negated {
                ExprV::NotIn(Box::new(l), Box::new(r))
            } else {
                ExprV::In(Box::new(l), Box::new(r))
            };
            lowered(e, s) == if items.len() == 0 {
                Ok::<AstV, QueryFault>(AstV::LitBool(negated))
            } else {
                match in_chain(lowered(l, s)->Ok_0, items, negated, s) {
                    Err(f) => Err(f),
                    Ok(a) => Ok(a->0),
                }
            }
        }),
{
    let r = ExprV::Array(items);
    assert(lowered(ExprV::In(Box::new(l), Box::new(r)), s) == lowered_in(
        lowered(l, s),
        r,
        false,
        s,
    )) by {
        reveal(lowered);
        reveal(lowered_in);
    }
    assert(lowered(ExprV::NotIn(Box::new(l), Box::new(r)), s) == lowered_in(
        lowered(l, s),
        r,
        true,
        s,
    )) by {
        reveal(lowered);
        reveal(lowered_in);
    }
    reveal(lowered_in);
    reveal(in_chain);
}

/// `in` holds of a row exactly if the value equals one of those in the list,
/// and `not in` exactly if it equals none of them.
#[verifier::spinoff_prover]
pub proof fn membership_compares_with_every_item(
    c: CtxV,
    l: ExprV,
    items: Seq<ExprV>,
    s: ScopeV,
    env: EnvV,
    v: ValueV,
    x: ValueV,
    xs: Seq<ValueV>,
)
    requires
        has_value(c, l, s, env, v, x),
        have_values(c, items, s, env, v, xs),
    ensures
        ({
            let r = Box::new(ExprV::Array(items));
            let inside = ExprV::In(Box::new(l), r);
            let outside = ExprV::NotIn(Box::new(l), r);
            &&& decided(c, inside, s, env, v)
            &&& decided(c, outside, s, env, v)
            &&& holds(c, inside, s, env, v) <==> exists|i: int|
                0 <= i < xs.len() && compares(c, x, CompareOp::Eq, #[trigger] xs[i])
            &&& holds(c, outside, s, env, v) <==> forall|i: int|
                0 <= i < xs.len() ==> !compares(c, x, CompareOp::Eq, #[trigger] xs[i])
            &&& holds(c, outside, s, env, v) == !holds(c, inside, s, env, v)
        }),
{
    lowered_membership(l, items, s, false);
    lowered_membership(l, items, s, true);
    if items.len() == 0 {
        assert(run(c, AstV::LitBool(false), env, v) == one(env, ValueV::Bool(false))) by {
            reveal(run);
        }
        assert(run(c, AstV::LitBool(true), env, v) == one(env, ValueV::Bool(true))) by {
            reveal(run);
        }
        one_flag(c, one(env, ValueV::Bool(false)), false);
        one_flag(c, one(env, ValueV::Bool(true)), true);
    } else {
        let a = lowered(l, s)->Ok_0;
        chain_holds(c, a, items, false, s, env, v, x, xs);
        chain_holds(c, a, items, true, s, env, v, x, xs);
    }
    assert(some_equal(c, x, xs) == exists|i: int|
        0 <= i < xs.len() && compares(c, x, CompareOp::Eq, #[trigger] xs[i]));
}

#[verifier::spinoff_prover]
proof fn lowered_joined(l: ExprV, r: ExprV, s: ScopeV)
    requires
        compiles(l, s),
        compiles(r, s),
    ensures
        lowered(ExprV::And(Box::new(l), Box::new(r)), s) == Ok::<AstV, QueryFault>(
            AstV::And(Box::new(lowered(l, s)->Ok_0), Box::new(lowered(r, s)->Ok_0)),
        ),
        lowered(ExprV::Or(Box::new(l), Box::new(r)), s) == Ok::<AstV, QueryFault>(
            AstV::Or(Box::new(lowered(l, s)->Ok_0), Box::new(lowered(r, s)->Ok_0)),
        ),
{
    reveal(lowered);
}

/// `and` holds exactly if both sides do, and `or` exactly if one of them does.
pub proof fn connectives_join_conditions(
    c: CtxV,
    l: ExprV,
    r: ExprV,
    s: ScopeV,
    env: EnvV,
    v: ValueV,
)
    requires
        decided(c, l, s, env, v),
        decided(c, r, s, env, v),
    ensures
        decided(c, ExprV::And(Box::new(l), Box::new(r)), s, env, v),
        decided(c, ExprV::Or(Box::new(l), Box::new(r)), s, env, v),
        holds(c, ExprV::And(Box::new(l), Box::new(r)), s, env, v) == (holds(c, l, s, env, v)
            && holds(c, r, s, env, v)),
        holds(c, ExprV::Or(Box::new(l), Box::new(r)), s, env, v) == (holds(c, l, s, env, v)
            || holds(c, r, s, env, v)),
{
    lowered_joined(l, r, s);
    and_run(c, lowered(l, s)->Ok_0, lowered(r, s)->Ok_0, env, v);
    or_run(c, lowered(l, s)->Ok_0, lowered(r, s)->Ok_0, env, v);
}

/// A stage that looks at one row at a time, behind a tree with one row.
#[verifier::spinoff_prover]
proof fn behind_one_row(c: CtxV, l: AstV, r: AstV, env: EnvV, v: ValueV)
    requires
        row_stage(r),
        !(r is Field),
        run(c, l, env, v).err is None,
        run(c, l, env, v).rows.len() == 1,
    ensures
        run(c, piped(l, r), env, v) == run(
            c,
            r,
            run(c, l, env, v).rows[0].env,
            run(c, l, env, v).rows[0].value,
        ),
{
    let s = run(c, l, env, v);
    if l is Identity {
        assert(s == one(env, v)) by {
            reveal(run);
        }
    } else {
        pipe_runs_on_each_row(c, l, r, env, v);
        assert(s.rows =~= seq![s.rows[0]]);
        each_of_one(c, r, s.rows[0]);
        let t = run(c, r, s.rows[0].env, s.rows[0].value);
        assert(followed(t, None) == t);
    }
}

#[verifier::spinoff_prover]
proof fn lowered_unary(e: ExprV, s: ScopeV)
    requires
        compiles(e, s),
    ensures
        lowered(ExprV::Not(Box::new(e)), s) == Ok::<AstV, QueryFault>(
            piped(lowered(e, s)->Ok_0, AstV::Not),
        ),
        lowered(ExprV::Exists(Box::new(e)), s) == Ok::<AstV, QueryFault>(
            AstV::Exists(Box::new(lowered(e, s)->Ok_0)),
        ),
        lowered(ExprV::Neg(Box::new(e)), s) == Ok::<AstV, QueryFault>(
            AstV::Neg(Box::new(lowered(e, s)->Ok_0)),
        ),
{
    reveal(lowered);
}

/// `not` gives the opposite of its operand's truth.
pub proof fn not_negates(c: CtxV, e: ExprV, s: ScopeV, env: EnvV, v: ValueV, x: ValueV)
    requires
        has_value(c, e, s, env, v, x),
    ensures
        has_value(c, ExprV::Not(Box::new(e)), s, env, v, ValueV::Bool(!truthy(c.doc, x))),
        holds(c, ExprV::Not(Box::new(e)), s, env, v) == !holds(c, e, s, env, v),
{
    let a = lowered(e, s)->Ok_0;
    lowered_unary(e, s);
    behind_one_row(c, a, AstV::Not, env, v);
    let row = run(c, a, env, v).rows[0];
    assert(run(c, AstV::Not, row.env, x) == one(row.env, ValueV::Bool(!truthy(c.doc, x)))) by {
        reveal(run);
    }
    one_flag(c, run(c, piped(a, AstV::Not), env, v), !truthy(c.doc, x));
    assert(has_true(c.doc, run(c, a, env, v).rows) == truthy(c.doc, x)) by {
        assert(run(c, a, env, v).rows[0].value == x);
    }
}

/// `exists` tells whether its operand gives anything, be it null.
pub proof fn exists_asks_for_anything(c: CtxV, e: ExprV, s: ScopeV, env: EnvV, v: ValueV)
    requires
        decided(c, e, s, env, v),
    ensures
        has_value(
            c,
            ExprV::Exists(Box::new(e)),
            s,
            env,
            v,
            ValueV::Bool(outcome_of(c, e, s, env, v).rows.len() > 0),
        ),
{
    lowered_unary(e, s);
    exists_asks_for_a_value(c, lowered(e, s)->Ok_0, env, v);
}

/// The opposite of a number is its negation; what is no number has none.
#[verifier::spinoff_prover]
pub proof fn minus_negates(c: CtxV, e: ExprV, s: ScopeV, env: EnvV, v: ValueV, x: ValueV)
    requires
        has_value(c, e, s, env, v, x),
    ensures
        has_value(
            c,
            ExprV::Neg(Box::new(e)),
            s,
            env,
            v,
            match number_of(c.doc, c.n, x) {
                Some(n) => ValueV::Number((c.n.apply)(NumOp::Neg, n, 0)),
                None => ValueV::Null,
            },
        ),
{
    lowered_unary(e, s);
    reveal(run);
}

/// The arithmetic that an operator stands for.
pub open spec fn arithmetic(op: BinaryOp) -> NumOp {
    match op {
        BinaryOp::Add => NumOp::Add,
        BinaryOp::Sub => NumOp::Sub,
        BinaryOp::Mul => NumOp::Mul,
        BinaryOp::Div => NumOp::Div,
    }
}

#[verifier::spinoff_prover]
proof fn lowered_binary(op: BinaryOp, l: ExprV, r: ExprV, s: ScopeV)
    requires
        compiles(l, s),
        compiles(r, s),
    ensures
        lowered(ExprV::Binary { op, lhs: Box::new(l), rhs: Box::new(r) }, s) == Ok::<
            AstV,
            QueryFault,
        >(
            AstV::Binary {
                op,
                lhs: Box::new(lowered(l, s)->Ok_0),
                rhs: Box::new(lowered(r, s)->Ok_0),
            },
        ),
{
    reveal(lowered);
}

/// An operator computes on the numbers of both sides. Without a number on one
/// side, for a division by zero, and where the result is not finite, it gives
/// null.
#[verifier::spinoff_prover]
pub proof fn operators_compute(
    c: CtxV,
    op: BinaryOp,
    l: ExprV,
    r: ExprV,
    s: ScopeV,
    env: EnvV,
    v: ValueV,
    x: ValueV,
    y: ValueV,
)
    requires
        has_value(c, l, s, env, v, x),
        has_value(c, r, s, env, v, y),
    ensures
        ({
            let e = ExprV::Binary { op, lhs: Box::new(l), rhs: Box::new(r) };
            match (number_of(c.doc, c.n, x), number_of(c.doc, c.n, y)) {
                (Some(a), Some(b)) => {
                    let z = (c.n.apply)(arithmetic(op), a, b);
                    if finite(z) && !(op == BinaryOp::Div && zero(b)) {
                        has_value(c, e, s, env, v, ValueV::Number(z))
                    } else {
                        has_value(c, e, s, env, v, ValueV::Null)
                    }
                },
                _ => has_value(c, e, s, env, v, ValueV::Null),
            }
        }),
{
    lowered_binary(op, l, r, s);
    reveal(run);
}

/// A literal is what it spells.
#[verifier::spinoff_prover]
pub proof fn literals_are_themselves(
    c: CtxV,
    s: ScopeV,
    env: EnvV,
    v: ValueV,
    t: Seq<char>,
    b: bool,
)
    ensures
        has_value(c, ExprV::Lit(LitV::Str(t)), s, env, v, ValueV::Str(t)),
        has_value(c, ExprV::Lit(LitV::Bool(b)), s, env, v, ValueV::Bool(b)),
        has_value(c, ExprV::Lit(LitV::Null), s, env, v, ValueV::Null),
        (c.n.read)(utf8_of(t)) matches Some(x) ==> has_value(
            c,
            ExprV::Lit(LitV::Number(t)),
            s,
            env,
            v,
            ValueV::Number(x),
        ),
{
    reveal(lowered);
    reveal(run);
}

/// A parameter stands for the value that is given for its name, the first one
/// where there are several.
#[verifier::spinoff_prover]
pub proof fn parameters_have_their_values(
    c: CtxV,
    s: ScopeV,
    env: EnvV,
    v: ValueV,
    n: Seq<char>,
    i: int,
)
    requires
        0 <= i < s.params.len(),
        s.params[i].0 == n,
        forall|j: int| 0 <= j < i ==> (#[trigger] s.params[j]).0 != n,
    ensures
        s.params[i].1 matches ParamV::Str(t) ==> has_value(
            c,
            ExprV::Param(n),
            s,
            env,
            v,
            ValueV::Str(t),
        ),
        s.params[i].1 matches ParamV::Bool(b) ==> has_value(
            c,
            ExprV::Param(n),
            s,
            env,
            v,
            ValueV::Bool(b),
        ),
        s.params[i].1 is Null ==> has_value(c, ExprV::Param(n), s, env, v, ValueV::Null),
        s.params[i].1 matches ParamV::Number(t) ==> ((c.n.read)(utf8_of(t)) matches Some(x)
            ==> has_value(c, ExprV::Param(n), s, env, v, ValueV::Number(x))),
{
    first_param(s.params, n, 0, i);
    reveal(lowered);
    reveal(run);
}

proof fn first_param(p: Seq<(Seq<char>, ParamV)>, n: Seq<char>, from: int, i: int)
    requires
        0 <= from <= i < p.len(),
        p[i].0 == n,
        forall|j: int| from <= j < i ==> (#[trigger] p[j]).0 != n,
    ensures
        param_named(p, n, from) == Some(p[i].1),
    decreases i - from,
{
    if from < i {
        assert(p[from].0 != n);
        first_param(p, n, from + 1, i);
    }
}

/// A type test tells whether the value is of the type, or is not.
#[verifier::spinoff_prover]
pub proof fn type_tests_test_the_type(
    c: CtxV,
    e: ExprV,
    kind: JsonTypeKind,
    negated: bool,
    s: ScopeV,
    env: EnvV,
    v: ValueV,
    x: ValueV,
)
    requires
        has_value(c, e, s, env, v, x),
    ensures
        has_value(
            c,
            ExprV::TypeTest { value: Box::new(e), kind, negated },
            s,
            env,
            v,
            ValueV::Bool(
                if negated {
                    type_of(c.doc, x) != kind
                } else {
                    type_of(c.doc, x) == kind
                },
            ),
        ),
{
    let a = lowered(e, s)->Ok_0;
    let t = AstV::TypeTest { value: Box::new(a), kind, negated };
    assert(lowered(ExprV::TypeTest { value: Box::new(e), kind, negated }, s) == Ok::<
        AstV,
        QueryFault,
    >(t)) by {
        reveal(lowered);
    }
    assert(run(c, t, env, v) == type_tests(c, env, run(c, a, env, v), kind, negated)) by {
        reveal(run);
    }
}

#[verifier::spinoff_prover]
proof fn lowered_if(p: ExprV, l: ExprV, r: ExprV, s: ScopeV)
    requires
        compiles(p, s),
        compiles(l, s),
        compiles(r, s),
    ensures
        lowered(
            ExprV::If { cond: Box::new(p), then_branch: Box::new(l), else_branch: Box::new(r) },
            s,
        ) == Ok::<AstV, QueryFault>(
            AstV::If {
                cond: Box::new(lowered(p, s)->Ok_0),
                then_branch: Box::new(lowered(l, s)->Ok_0),
                else_branch: Box::new(lowered(r, s)->Ok_0),
            },
        ),
{
    reveal(lowered);
}

/// `if` gives what one branch gives: the first where the condition holds, else
/// the second.
#[verifier::spinoff_prover]
pub proof fn if_takes_one_branch(
    c: CtxV,
    p: ExprV,
    l: ExprV,
    r: ExprV,
    s: ScopeV,
    env: EnvV,
    v: ValueV,
)
    requires
        decided(c, p, s, env, v),
        compiles(l, s),
        compiles(r, s),
    ensures
        ({
            let e = ExprV::If {
                cond: Box::new(p),
                then_branch: Box::new(l),
                else_branch: Box::new(r),
            };
            &&& compiles(e, s)
            &&& holds(c, p, s, env, v) ==> outcome_of(c, e, s, env, v) == outcome_of(
                c,
                l,
                s,
                env,
                v,
            )
            &&& !holds(c, p, s, env, v) ==> outcome_of(c, e, s, env, v) == outcome_of(
                c,
                r,
                s,
                env,
                v,
            )
        }),
{
    lowered_if(p, l, r, s);
    let a = AstV::If {
        cond: Box::new(lowered(p, s)->Ok_0),
        then_branch: Box::new(lowered(l, s)->Ok_0),
        else_branch: Box::new(lowered(r, s)->Ok_0),
    };
    assert(run(c, a, env, v) == match any_true(c.doc, run(c, lowered(p, s)->Ok_0, env, v)) {
        Err(e) => broken(e),
        Ok(true) => run(c, lowered(l, s)->Ok_0, env, v),
        Ok(false) => run(c, lowered(r, s)->Ok_0, env, v),
    }) by {
        reveal(run);
    }
}

proof fn filter_keeps_one(v: Seq<RowV>, p: spec_fn(RowV) -> bool)
    ensures
        v.filter(p).len() > 0 <==> exists|i: int| 0 <= i < v.len() && p(#[trigger] v[i]),
    decreases v.len(),
{
    reveal(Seq::filter);
    if v.len() > 0 {
        let less = v.drop_last();
        filter_keeps_one(less, p);
        if exists|i: int| 0 <= i < less.len() && p(#[trigger] less[i]) {
            let i = choose|i: int| 0 <= i < less.len() && p(#[trigger] less[i]);
            assert(p(v[i]));
        }
        if p(v.last()) {
            assert(p(v[v.len() - 1]));
        }
        if exists|i: int| 0 <= i < v.len() && p(#[trigger] v[i]) {
            let i = choose|i: int| 0 <= i < v.len() && p(#[trigger] v[i]);
            if i < less.len() {
                assert(p(less[i]));
            }
        }
    }
}

#[verifier::spinoff_prover]
proof fn lowered_nested_membership(l: ExprV, q: QueryV, s: ScopeV)
    requires
        compiles(l, s),
        nested(q, s) is Ok,
    ensures
        ({
            let r = Box::new(ExprV::Subquery(Box::new(q)));
            let t = member_test(nested(q, s)->Ok_0, lowered(l, s)->Ok_0);
            &&& lowered(ExprV::In(Box::new(l), r), s) == Ok::<AstV, QueryFault>(t)
            &&& lowered(ExprV::NotIn(Box::new(l), r), s) == Ok::<AstV, QueryFault>(
                piped(t, AstV::Not),
            )
        }),
{
    let r = ExprV::Subquery(Box::new(q));
    assert(lowered(ExprV::In(Box::new(l), Box::new(r)), s) == lowered_in(
        lowered(l, s),
        r,
        false,
        s,
    )) by {
        reveal(lowered);
        reveal(lowered_in);
    }
    assert(lowered(ExprV::NotIn(Box::new(l), Box::new(r)), s) == lowered_in(
        lowered(l, s),
        r,
        true,
        s,
    )) by {
        reveal(lowered);
        reveal(lowered_in);
    }
    reveal(lowered_in);
    reveal(nested);
}

/// The rows of a nested query.
pub open spec fn nested_rows(c: CtxV, q: QueryV, s: ScopeV, env: EnvV) -> StreamV {
    run(c, nested(q, s)->Ok_0, env, ValueV::Node(c.root))
}

/// On each of these rows the tree has one value.
pub open spec fn one_each(c: CtxV, a: AstV, rows: Seq<RowV>, xs: Seq<ValueV>) -> bool {
    &&& rows.len() == xs.len()
    &&& forall|i: int|
        0 <= i < rows.len() ==> {
            let t = run(c, a, (#[trigger] rows[i]).env, rows[i].value);
            t.err is None && t.rows.len() == 1 && t.rows[0].value == xs[i]
        }
}

/// `in` with a nested query holds exactly if one of the values that the query
/// gives equals the left side, and `not in` exactly if none does.
#[verifier::spinoff_prover]
pub proof fn membership_looks_through_the_nested_rows(
    c: CtxV,
    l: ExprV,
    q: QueryV,
    s: ScopeV,
    env: EnvV,
    v: ValueV,
    xs: Seq<ValueV>,
)
    requires
        compiles(l, s),
        nested(q, s) is Ok,
        nested_rows(c, q, s, env).err is None,
        one_each(c, lowered(l, s)->Ok_0, nested_rows(c, q, s, env).rows, xs),
    ensures
        ({
            let r = Box::new(ExprV::Subquery(Box::new(q)));
            let rows = nested_rows(c, q, s, env).rows;
            let inside = ExprV::In(Box::new(l), r);
            let outside = ExprV::NotIn(Box::new(l), r);
            &&& decided(c, inside, s, env, v)
            &&& decided(c, outside, s, env, v)
            &&& holds(c, inside, s, env, v) <==> exists|i: int|
                0 <= i < rows.len() && compares(
                    c,
                    (#[trigger] rows[i]).value,
                    CompareOp::Eq,
                    xs[i],
                )
            &&& holds(c, outside, s, env, v) == !holds(c, inside, s, env, v)
        }),
{
    let x = lowered(l, s)->Ok_0;
    let y = nested(q, s)->Ok_0;
    let rows = nested_rows(c, q, s, env).rows;
    let sub = AstV::Subquery { pipeline: Box::new(y) };
    let p = AstV::Compare(Box::new(AstV::Identity), CompareOp::Eq, Box::new(x));
    let f = AstV::Select(Box::new(p));
    let found = AstV::Pipe(Box::new(sub), Box::new(f));
    let t = member_test(y, x);
    lowered_nested_membership(l, q, s);
    assert(run(c, sub, env, v) == nested_rows(c, q, s, env)) by {
        reveal(run);
    }
    assert forall|i: int| 0 <= i < rows.len() implies settled(c, p, #[trigger] rows[i]) && passes(
        c,
        p,
        rows[i].env,
        rows[i].value,
    ) == compares(c, rows[i].value, CompareOp::Eq, xs[i]) by {
        let row = rows[i];
        assert(run(c, AstV::Identity, row.env, row.value) == one(row.env, row.value)) by {
            reveal(run);
        }
        compare_run(c, AstV::Identity, CompareOp::Eq, x, row.env, row.value, row.value, xs[i]);
    }
    pipe_runs_on_each_row(c, sub, f, env, v);
    filter_each(c, p, p, rows);
    let kept = passing(c, p, rows);
    filter_keeps_one(rows, |r: RowV| passes(c, p, r.env, r.value));
    exists_asks_for_a_value(c, found, env, v);
    let b = kept.len() > 0;
    assert(run(c, t, env, v) == one(env, ValueV::Bool(b)));
    one_flag(c, run(c, t, env, v), b);
    behind_one_row(c, t, AstV::Not, env, v);
    assert(run(c, AstV::Not, env, ValueV::Bool(b)) == one(env, ValueV::Bool(!b))) by {
        reveal(run);
    }
    one_flag(c, run(c, piped(t, AstV::Not), env, v), !b);
    if b {
        let i = choose|i: int|
            0 <= i < rows.len() && passes(c, p, (#[trigger] rows[i]).env, rows[i].value);
        assert(compares(c, rows[i].value, CompareOp::Eq, xs[i]));
    }
    if exists|i: int|
        0 <= i < rows.len() && compares(c, (#[trigger] rows[i]).value, CompareOp::Eq, xs[i]) {
        let i = choose|i: int|
            0 <= i < rows.len() && compares(c, (#[trigger] rows[i]).value, CompareOp::Eq, xs[i]);
        assert(passes(c, p, rows[i].env, rows[i].value));
    }
}

#[verifier::spinoff_prover]
proof fn trees_of_all(items: Seq<ExprV>, s: ScopeV)
    requires
        forall|i: int| 0 <= i < items.len() ==> compiles(#[trigger] items[i], s),
    ensures
        lowered_all(items, s) == Ok::<Seq<AstV>, QueryFault>(
            Seq::new(items.len(), |i: int| lowered(items[i], s)->Ok_0),
        ),
    decreases items.len(),
{
    let want = Seq::new(items.len(), |i: int| lowered(items[i], s)->Ok_0);
    if items.len() == 0 {
        reveal(lowered_all);
        assert(want =~= Seq::empty());
    } else {
        let less = items.drop_last();
        assert forall|i: int| 0 <= i < less.len() implies compiles(#[trigger] less[i], s) by {
            assert(less[i] == items[i]);
        }
        trees_of_all(less, s);
        assert(compiles(items[items.len() - 1], s));
        let rest = Seq::new(less.len(), |i: int| lowered(less[i], s)->Ok_0);
        assert(lowered_all(items, s) == Ok::<Seq<AstV>, QueryFault>(
            rest.push(lowered(items.last(), s)->Ok_0),
        )) by {
            reveal_with_fuel(lowered_all, 2);
            reveal(lowered);
        }
        assert(rest.push(lowered(items.last(), s)->Ok_0) =~= want);
    }
}

/// A list has the values of its items, in their order.
#[verifier::spinoff_prover]
pub proof fn lists_hold_their_items(
    c: CtxV,
    items: Seq<ExprV>,
    s: ScopeV,
    env: EnvV,
    v: ValueV,
    xs: Seq<ValueV>,
)
    requires
        have_values(c, items, s, env, v, xs),
    ensures
        has_value(c, ExprV::Array(items), s, env, v, ValueV::Array(xs)),
{
    let trees = Seq::new(items.len(), |i: int| lowered(items[i], s)->Ok_0);
    assert forall|i: int| 0 <= i < items.len() implies compiles(#[trigger] items[i], s) by {
        assert(has_value(c, items[i], s, env, v, xs[i]));
    }
    trees_of_all(items, s);
    assert(lowered(ExprV::Array(items), s) == Ok::<AstV, QueryFault>(AstV::ArrayLit(trees))) by {
        reveal(lowered);
        reveal(lowered_all);
    }
    assert forall|i: int| 0 <= i < trees.len() implies run(c, #[trigger] trees[i], env, v).err is None by {
        assert(has_value(c, items[i], s, env, v, xs[i]));
    }
    firsts_are_parts(c, trees, env, v);
    let parts = parts_at(c, trees, env, v);
    let made = Seq::new(parts.len(), |i: int| or_null(parts[i]));
    assert forall|i: int| 0 <= i < made.len() implies made[i] == xs[i] by {
        assert(has_value(c, items[i], s, env, v, xs[i]));
        assert(parts[i] == part_at(c, trees[i], env, v));
    }
    assert(made =~= xs);
    assert(run(c, AstV::ArrayLit(trees), env, v) == one(env, ValueV::Array(xs))) by {
        reveal(run);
        reveal(firsts);
        assert(run(c, AstV::ArrayLit(trees), env, v).rows[0].value->Array_0 =~= xs);
    }
}

/// A call has the function's value of the values of its arguments.
#[verifier::spinoff_prover]
pub proof fn calls_apply_the_function(
    c: CtxV,
    name: Seq<char>,
    args: Seq<ExprV>,
    s: ScopeV,
    env: EnvV,
    v: ValueV,
    xs: Seq<ValueV>,
)
    requires
        have_values(c, args, s, env, v, xs),
    ensures
        has_value(
            c,
            ExprV::Call(name, args),
            s,
            env,
            v,
            called(c, name, Seq::new(xs.len(), |i: int| Some(xs[i]))),
        ),
{
    let trees = Seq::new(args.len(), |i: int| lowered(args[i], s)->Ok_0);
    assert forall|i: int| 0 <= i < args.len() implies compiles(#[trigger] args[i], s) by {
        assert(has_value(c, args[i], s, env, v, xs[i]));
    }
    trees_of_all(args, s);
    assert(lowered(ExprV::Call(name, args), s) == Ok::<AstV, QueryFault>(
        AstV::Call { name, args: trees },
    )) by {
        reveal(lowered);
        reveal(lowered_all);
    }
    assert forall|i: int| 0 <= i < trees.len() implies run(c, #[trigger] trees[i], env, v).err is None by {
        assert(has_value(c, args[i], s, env, v, xs[i]));
    }
    calls_take_first_values(c, name, trees, env, v);
    let parts = parts_at(c, trees, env, v);
    let want = Seq::new(xs.len(), |i: int| Some(xs[i]));
    assert forall|i: int| 0 <= i < parts.len() implies parts[i] == want[i] by {
        assert(has_value(c, args[i], s, env, v, xs[i]));
        assert(parts[i] == part_at(c, trees[i], env, v));
    }
    assert(parts =~= want);
}

#[verifier::spinoff_prover]
proof fn trees_of_fields(fields: Seq<ObjectFieldV>, s: ScopeV)
    requires
        forall|i: int|
            0 <= i < fields.len() ==> compiles((#[trigger] fields[i]).value, s)
                && fields[i].default is None,
    ensures
        lowered_fields(fields, s) == Ok::<Seq<(Seq<char>, AstV)>, QueryFault>(
            Seq::new(fields.len(), |i: int| (fields[i].name, lowered(fields[i].value, s)->Ok_0)),
        ),
    decreases fields.len(),
{
    let want = Seq::new(
        fields.len(),
        |i: int| (fields[i].name, lowered(fields[i].value, s)->Ok_0),
    );
    if fields.len() == 0 {
        reveal(lowered_fields);
        assert(want =~= Seq::empty());
    } else {
        let less = fields.drop_last();
        assert forall|i: int| 0 <= i < less.len() implies compiles((#[trigger] less[i]).value, s)
            && less[i].default is None by {
            assert(less[i] == fields[i]);
        }
        trees_of_fields(less, s);
        assert(compiles(fields[fields.len() - 1].value, s));
        let rest = Seq::new(less.len(), |i: int| (less[i].name, lowered(less[i].value, s)->Ok_0));
        let last = (fields.last().name, lowered(fields.last().value, s)->Ok_0);
        assert(lowered_fields(fields, s) == Ok::<Seq<(Seq<char>, AstV)>, QueryFault>(
            rest.push(last),
        )) by {
            reveal_with_fuel(lowered_fields, 2);
            reveal(lowered);
        }
        assert(rest.push(last) =~= want);
    }
}

/// An object has the values of its fields, each under its name.
#[verifier::spinoff_prover]
pub proof fn objects_hold_their_fields(
    c: CtxV,
    fields: Seq<ObjectFieldV>,
    s: ScopeV,
    env: EnvV,
    v: ValueV,
    xs: Seq<ValueV>,
)
    requires
        fields.len() == xs.len(),
        forall|i: int|
            0 <= i < fields.len() ==> has_value(c, (#[trigger] fields[i]).value, s, env, v, xs[i])
                && fields[i].default is None,
    ensures
        has_value(
            c,
            ExprV::Object(fields),
            s,
            env,
            v,
            ValueV::Object(Seq::new(fields.len(), |i: int| (fields[i].name, xs[i]))),
        ),
{
    let trees = Seq::new(
        fields.len(),
        |i: int| (fields[i].name, lowered(fields[i].value, s)->Ok_0),
    );
    let row = RowV { env, value: v };
    trees_of_fields(fields, s);
    assert(lowered(ExprV::Object(fields), s) == Ok::<AstV, QueryFault>(AstV::Object(trees))) by {
        reveal(lowered);
        reveal(lowered_fields);
    }
    assert forall|i: int| 0 <= i < trees.len() implies run(
        c,
        (#[trigger] trees[i]).1,
        row.env,
        row.value,
    ).err is None by {
        assert(has_value(c, fields[i].value, s, env, v, xs[i]));
    }
    columns_are_parts(c, trees, row);
    let parts = named_firsts(c, trees, env, v)->Ok_0;
    let want = Seq::new(fields.len(), |i: int| (fields[i].name, xs[i]));
    let made = object_of(names_of(trees), parts);
    assert(made->Object_0 =~= want) by {
        assert forall|i: int| 0 <= i < fields.len() implies made->Object_0[i] == want[i] by {
            assert(has_value(c, fields[i].value, s, env, v, xs[i]));
            assert(parts[i] == part_at(c, trees[i].1, env, v));
        }
    }
    assert(run(c, AstV::Object(trees), env, v) == one(env, made)) by {
        reveal(run);
        reveal(named_firsts);
    }
}

/// A nested query gives its rows, run from the document's root with the names
/// around it bound.
#[verifier::spinoff_prover]
pub proof fn nested_queries_start_at_the_root(c: CtxV, q: QueryV, s: ScopeV, env: EnvV, v: ValueV)
    requires
        nested(q, s) is Ok,
    ensures
        compiles(ExprV::Subquery(Box::new(q)), s),
        outcome_of(c, ExprV::Subquery(Box::new(q)), s, env, v) == nested_rows(c, q, s, env),
{
    assert(lowered(ExprV::Subquery(Box::new(q)), s) == Ok::<AstV, QueryFault>(
        AstV::Subquery { pipeline: Box::new(nested(q, s)->Ok_0) },
    )) by {
        reveal(lowered);
        reveal(nested);
    }
    reveal(run);
}

/// The comparison of one field of a base with a target.
pub open spec fn field_test(base: AstV, n: Seq<char>, op: CompareOp, target: AstV) -> AstV {
    AstV::Compare(
        Box::new(AstV::Pipe(Box::new(base), Box::new(AstV::Field(n)))),
        op,
        Box::new(target),
    )
}

/// Fields that all have this right side.
pub open spec fn same_targets(v: Seq<(Seq<char>, AstV)>, target: AstV) -> bool {
    forall|i: int| 0 <= i < v.len() ==> (#[trigger] v[i]).1 == target
}

/// All fields of a set compare with the target.
pub open spec fn all_fields_pass(
    c: CtxV,
    base: AstV,
    v: Seq<(Seq<char>, AstV)>,
    op: CompareOp,
    target: AstV,
    env: EnvV,
    x: ValueV,
) -> bool {
    forall|i: int|
        0 <= i < v.len() ==> passes(c, field_test(base, (#[trigger] v[i]).0, op, target), env, x)
}

#[verifier::spinoff_prover]
proof fn field_test_runs(
    c: CtxV,
    base: AstV,
    n: Seq<char>,
    op: CompareOp,
    target: AstV,
    env: EnvV,
    x: ValueV,
)
    requires
        run(c, base, env, x).err is None,
        run(c, base, env, x).rows.len() == 1,
        run(c, target, env, x).err is None,
    ensures
        run(c, field_test(base, n, op, target), env, x).err is None,
{
    let f = AstV::Field(n);
    let s = run(c, base, env, x);
    pipe_runs_on_each_row(c, base, f, env, x);
    assert(s.rows =~= seq![s.rows[0]]);
    each_of_one(c, f, s.rows[0]);
    assert(run(c, f, s.rows[0].env, s.rows[0].value).err is None) by {
        reveal(run);
    }
    reveal(run);
}

#[verifier::spinoff_prover]
proof fn chained_fields_pass(
    c: CtxV,
    base: AstV,
    v: Seq<(Seq<char>, AstV)>,
    op: CompareOp,
    target: AstV,
    env: EnvV,
    x: ValueV,
)
    requires
        base is Var,
        v.len() > 0,
        same_targets(v, target),
        run(c, base, env, x).err is None,
        run(c, base, env, x).rows.len() == 1,
        run(c, target, env, x).err is None,
    ensures
        run(c, field_compares(base, v, op), env, x).err is None,
        passes(c, field_compares(base, v, op), env, x) == all_fields_pass(
            c,
            base,
            v,
            op,
            target,
            env,
            x,
        ),
    decreases v.len(),
{
    let m = v.len() - 1;
    let last = field_test(base, v[m].0, op, target);
    assert(v[m].1 == target);
    field_test_runs(c, base, v[m].0, op, target, env, x);
    if v.len() == 1 {
        assert(field_compares(base, v, op) == last);
        assert(all_fields_pass(c, base, v, op, target, env, x) == passes(c, last, env, x)) by {
            if all_fields_pass(c, base, v, op, target, env, x) {
                assert(passes(c, field_test(base, v[0].0, op, target), env, x));
            }
        }
    } else {
        let less = v.drop_last();
        assert forall|i: int| 0 <= i < less.len() implies (#[trigger] less[i]).1 == target by {
            assert(less[i] == v[i]);
        }
        chained_fields_pass(c, base, less, op, target, env, x);
        let rest = field_compares(base, less, op);
        assert(field_compares(base, v, op) == AstV::And(Box::new(rest), Box::new(last)));
        and_run(c, rest, last, env, x);
        let here = all_fields_pass(c, base, v, op, target, env, x);
        let before = all_fields_pass(c, base, less, op, target, env, x);
        if here {
            assert forall|i: int| 0 <= i < less.len() implies passes(
                c,
                field_test(base, (#[trigger] less[i]).0, op, target),
                env,
                x,
            ) by {
                assert(less[i] == v[i]);
            }
            assert(passes(c, field_test(base, v[m].0, op, target), env, x));
        }
        if before && passes(c, last, env, x) {
            assert forall|i: int| 0 <= i < v.len() implies passes(
                c,
                field_test(base, (#[trigger] v[i]).0, op, target),
                env,
                x,
            ) by {
                if i < m {
                    assert(less[i] == v[i]);
                }
            }
        }
    }
}

/// A comparison of several fields with one value holds exactly if the
/// comparison of each of them does, whether or not they are read together.
#[verifier::spinoff_prover]
pub proof fn field_sets_compare_every_field(
    c: CtxV,
    base: AstV,
    v: Seq<(Seq<char>, AstV)>,
    op: CompareOp,
    target: AstV,
    env: EnvV,
    x: ValueV,
    e: EnvV,
    id: u32,
    d: EnvV,
    t: ValueV,
)
    requires
        base is Var,
        v.len() > 0,
        same_targets(v, target),
        run(c, base, env, x) == one(e, ValueV::Node(id)),
        c.doc.kind_of(id) == NodeKind::Object,
        run(c, target, env, x) == one(d, t),
    ensures
        set_compare(base, v, op) matches Ok(a) && run(c, a, env, x).err is None && passes(
            c,
            a,
            env,
            x,
        ) == all_fields_pass(c, base, v, op, target, env, x),
{
    chained_fields_pass(c, base, v, op, target, env, x);
    assert(v[0].1 == target);
    if op == CompareOp::Eq && v.len() > 1 && one_target(v) {
        let fields = entry_names(v);
        let a = AstV::FieldSetEquals { base: Box::new(base), fields, target: Box::new(target) };
        field_set_compares_each_field(c, base, fields, target, env, x, e, id, t, d);
        assert(set_compare(base, v, op) == Ok::<AstV, QueryFault>(a));
        let all = forall|i: int|
            0 <= i < fields.len() ==> field_compare_holds(
                c,
                base,
                #[trigger] fields[i],
                target,
                env,
                x,
            );
        assert forall|i: int| 0 <= i < v.len() implies field_compare_holds(
            c,
            base,
            #[trigger] fields[i],
            target,
            env,
            x,
        ) == passes(c, field_test(base, v[i].0, op, target), env, x) by {
            field_test_runs(c, base, v[i].0, op, target, env, x);
            assert(fields[i] == v[i].0);
        }
        if all {
            assert forall|i: int| 0 <= i < v.len() implies passes(
                c,
                field_test(base, (#[trigger] v[i]).0, op, target),
                env,
                x,
            ) by {
                assert(field_compare_holds(c, base, fields[i], target, env, x));
            }
        }
        if all_fields_pass(c, base, v, op, target, env, x) {
            assert forall|i: int| 0 <= i < fields.len() implies field_compare_holds(
                c,
                base,
                #[trigger] fields[i],
                target,
                env,
                x,
            ) by {
                assert(passes(c, field_test(base, v[i].0, op, target), env, x));
            }
        }
        one_flag(c, run(c, a, env, x), all);
    }
}

/// A field of a set has the right side that was given for it last; other
/// fields keep theirs, and none stands twice.
pub proof fn fields_have_their_last_side(
    v: Seq<(Seq<char>, AstV)>,
    n: Seq<char>,
    a: AstV,
    i: int,
)
    requires
        0 <= i <= v.len(),
        forall|k: int| 0 <= k < i ==> (#[trigger] v[k]).0 != n,
    ensures
        ({
            let out = put_entry(v, n, a, i);
            &&& exists|k: int| 0 <= k < out.len() && #[trigger] out[k] == (n, a)
            &&& out.len() == v.len() || (out.len() == v.len() + 1 && forall|k: int|
                0 <= k < v.len() ==> (#[trigger] v[k]).0 != n)
            &&& forall|k: int| 0 <= k < v.len() && (#[trigger] v[k]).0 != n ==> out[k] == v[k]
        }),
    decreases v.len() - i,
{
    let out = put_entry(v, n, a, i);
    if i < v.len() && v[i].0 != n {
        fields_have_their_last_side(v, n, a, i + 1);
    } else if i < v.len() {
        assert(out[i] == (n, a));
    } else {
        assert(out[v.len() as int] == (n, a));
    }
}

} // verus!
