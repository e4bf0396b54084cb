//! Reordering of conditions: in a chain of `and` or `or`, what costs less
//! comes first.
use vstd::prelude::*;

use super::super::ast::{field_views, opt_view, views, Ast, AstV};

verus! {

/// A sum that stops at the greatest cost.
pub open spec fn plus(a: u64, b: u64) -> u64 {
    if a + b > u64::MAX {
        u64::MAX
    } else {
        (a + b) as u64
    }
}

/// What a tree costs to run on a row, roughly.
#[verifier::opaque]
pub open spec fn cost(a: AstV) -> u64
    decreases a,
{
    match a {
        AstV::Identity => 0,
        AstV::LitNumber(_) => 0,
        AstV::LitString(_) => 0,
        AstV::LitBool(_) => 0,
        AstV::LitNull => 0,
        AstV::Var(_) => 0,
        AstV::ReducerSlot(_) => 0,
        AstV::Field(_) => 1,
        AstV::Index(_) => 1,
        AstV::Iterate => 8,
        AstV::IterateField(_) => 8,
        AstV::Descend => 50,
        AstV::DescendField(_) => 50,
        AstV::Pipe(l, r) => plus(cost(*l), cost(*r)),
        AstV::Compare(l, _, r) => plus(plus(1, cost(*l)), cost(*r)),
        AstV::And(l, r) => plus(cost(*l), cost(*r)),
        AstV::Or(l, r) => plus(cost(*l), cost(*r)),
        AstV::Not => 1,
        AstV::Select(e) => cost(*e),
        AstV::Exists(e) => cost(*e),
        AstV::Tap(e) => cost(*e),
        AstV::Let { value, .. } => cost(*value),
        AstV::Sum => 1,
        AstV::Min => 1,
        AstV::Max => 1,
        AstV::Avg => 1,
        AstV::Count => 1,
        AstV::Limit(_) => 1,
        AstV::Distinct => 1,
        AstV::Lookup { source, key, .. } => plus(plus(30, cost(*source)), cost(*key)),
        AstV::JoinEach { outer_key, lookup, .. } => plus(plus(30, cost(*outer_key)), cost(*lookup)),
        AstV::UnnestEach { source, .. } => plus(20, cost(*source)),
        AstV::FieldSetEquals { base, fields, target } => plus(
            plus(plus(cost(*base), cost(*target)), 20),
            tenfold(fields.len()),
        ),
        AstV::By(e, k) => plus(plus(500, cost(*e)), cost(*k)),
        AstV::SortBy(_) => 500,
        AstV::AggregateBlock { .. } => 1000,
        AstV::Project(f) => plus(named_cost(f), 5),
        AstV::Object(f) => plus(named_cost(f), 5),
        AstV::KeyTuple(v) => total_cost(v, 0),
        AstV::ArrayLit(v) => total_cost(v, 0),
        AstV::Call { args, .. } => total_cost(args, 2),
        AstV::Binary { lhs, rhs, .. } => plus(plus(1, cost(*lhs)), cost(*rhs)),
        AstV::Neg(e) => plus(1, cost(*e)),
        AstV::TypeTest { value, .. } => plus(1, cost(*value)),
        AstV::Round { value, precision } => plus(plus(2, cost(*value)), opt_cost(precision)),
        AstV::If { cond, then_branch, else_branch } => plus(
            plus(2, cost(*cond)),
            if cost(*then_branch) < cost(*else_branch) {
                cost(*then_branch)
            } else {
                cost(*else_branch)
            },
        ),
        AstV::Subquery { pipeline } => plus(2000, cost(*pipeline)),
    }
}

pub open spec fn tenfold(n: nat) -> u64 {
    if 10 * n > u64::MAX {
        u64::MAX
    } else {
        (10 * n) as u64
    }
}

#[verifier::opaque]
pub open spec fn opt_cost(o: Option<Box<AstV>>) -> u64
    decreases o,
{
    match o {
        Some(a) => cost(*a),
        None => 0,
    }
}

#[verifier::opaque]
pub open spec fn total_cost(v: Seq<AstV>, base: u64) -> u64
    decreases v,
{
    if v.len() == 0 {
        base
    } else {
        plus(total_cost(v.drop_last(), base), cost(v.last()))
    }
}

#[verifier::opaque]
pub open spec fn named_cost(v: Seq<(Seq<char>, AstV)>) -> u64
    decreases v,
{
    if v.len() == 0 {
        0
    } else {
        plus(named_cost(v.drop_last()), cost(v.last().1))
    }
}

fn total(a: u64, b: u64) -> (r: u64)
    ensures
        r == plus(a, b),
{
    if a > u64::MAX - b {
        u64::MAX
    } else {
        a + b
    }
}

fn ten_each(n: usize) -> (r: u64)
    ensures
        r == tenfold(n as nat),
{
    let wide: u128 = 10 * (n as u128);
    if wide > u64::MAX as u128 {
        u64::MAX
    } else {
        wide as u64
    }
}

#[verifier::spinoff_prover]
fn costs_of(v: &Vec<Ast>, base: u64) -> (r: u64)
    ensures
        r == total_cost(views(v@), base),
    decreases v, 0nat,
{
    let ghost all = views(v@);
    let mut sum: u64 = base;
    let mut i: usize = 0;
    proof {
        reveal(total_cost);
        reveal(cost);
        assert(all.take(0) =~= Seq::empty());
    }
    while i < v.len()
        invariant
            i <= v@.len(),
            all == views(v@),
            all.len() == v@.len(),
            sum == total_cost(all.take(i as int), base),
        decreases v@.len() - i,
    {
        proof {
            reveal(total_cost);
            reveal(cost);
            let next = all.take(i + 1);
            assert(next.drop_last() =~= all.take(i as int));
            assert(next.last() == all[i as int]);
            assert(decreases_to!(v => v@[i as int]));
        }
        sum = total(sum, predicate_cost(&v[i]));
        i += 1;
    }
    assert(all.take(i as int) =~= all);
    sum
}

#[verifier::spinoff_prover]
fn named_costs(v: &Vec<(String, Ast)>) -> (r: u64)
    ensures
        r == named_cost(field_views(v@)),
    decreases v, 0nat,
{
    let ghost all = field_views(v@);
    let mut sum: u64 = 0;
    let mut i: usize = 0;
    proof {
        reveal(named_cost);
        reveal(cost);
        assert(all.take(0) =~= Seq::empty());
    }
    while i < v.len()
        invariant
            i <= v@.len(),
            all == field_views(v@),
            all.len() == v@.len(),
            sum == named_cost(all.take(i as int)),
        decreases v@.len() - i,
    {
        proof {
            reveal(named_cost);
            reveal(cost);
            let next = all.take(i + 1);
            assert(next.drop_last() =~= all.take(i as int));
            assert(next.last() == all[i as int]);
            assert(decreases_to!(v => v@[i as int]));
        }
        sum = total(sum, predicate_cost(&v[i].1));
        i += 1;
    }
    assert(all.take(i as int) =~= all);
    sum
}

fn opt_costs(o: &Option<Box<Ast>>) -> (r: u64)
    ensures
        r == opt_cost(opt_view(*o)),
    decreases o, 0nat,
{
    proof {
        reveal(opt_cost);
        reveal(cost);
    }
    match o {
        Some(a) => predicate_cost(a),
        None => 0,
    }
}

/// What a tree costs to run on a row, roughly.
#[verifier::spinoff_prover]
pub fn predicate_cost(a: &Ast) -> (r: u64)
    ensures
        r == cost(a@),
    decreases a, 0nat,
{
    proof {
        reveal(cost);
    }
    match a {
        Ast::Identity => 0,
        Ast::LitNumber(_) => 0,
        Ast::LitString(_) => 0,
        Ast::LitBool(_) => 0,
        Ast::LitNull => 0,
        Ast::Var(_) => 0,
        Ast::ReducerSlot(_) => 0,
        Ast::Field(_) => 1,
        Ast::Index(_) => 1,
        Ast::Iterate => 8,
        Ast::IterateField(_) => 8,
        Ast::Descend => 50,
        Ast::DescendField(_) => 50,
        Ast::Pipe(l, r) => total(predicate_cost(l), predicate_cost(r)),
        Ast::Compare(l, _, r) => total(total(1, predicate_cost(l)), predicate_cost(r)),
        Ast::And(l, r) => total(predicate_cost(l), predicate_cost(r)),
        Ast::Or(l, r) => total(predicate_cost(l), predicate_cost(r)),
        Ast::Not => 1,
        Ast::Select(e) => predicate_cost(e),
        Ast::Exists(e) => predicate_cost(e),
        Ast::Tap(e) => predicate_cost(e),
        Ast::Let { value, .. } => predicate_cost(value),
        Ast::Sum => 1,
        Ast::Min => 1,
        Ast::Max => 1,
        Ast::Avg => 1,
        Ast::Count => 1,
        Ast::Limit(_) => 1,
        Ast::Distinct => 1,
        Ast::Lookup { source, key, .. } => total(
            total(30, predicate_cost(source)),
            predicate_cost(key),
        ),
        Ast::JoinEach { outer_key, lookup, .. } => total(
            total(30, predicate_cost(outer_key)),
            predicate_cost(lookup),
        ),
        Ast::UnnestEach { source, .. } => total(20, predicate_cost(source)),
        Ast::FieldSetEquals { base, fields, target } => total(
            total(total(predicate_cost(base), predicate_cost(target)), 20),
            ten_each(fields.len()),
        ),
        Ast::By(e, k) => total(total(500, predicate_cost(e)), predicate_cost(k)),
        Ast::SortBy(_) => 500,
        Ast::AggregateBlock { .. } => 1000,
        Ast::Project(f) => total(named_costs(f), 5),
        Ast::Object(f) => total(named_costs(f), 5),
        Ast::KeyTuple(v) => costs_of(v, 0),
        Ast::ArrayLit(v) => costs_of(v, 0),
        Ast::Call { args, .. } => costs_of(args, 2),
        Ast::Binary { lhs, rhs, .. } => total(total(1, predicate_cost(lhs)), predicate_cost(rhs)),
        Ast::Neg(e) => total(1, predicate_cost(e)),
        Ast::TypeTest { value, .. } => total(1, predicate_cost(value)),
        Ast::Round { value, precision } => total(
            total(2, predicate_cost(value)),
            opt_costs(precision),
        ),
        Ast::If { cond, then_branch, else_branch } => {
            let a = predicate_cost(then_branch);
            let b = predicate_cost(else_branch);
            let least = if a < b {
                a
            } else {
                b
            };
            total(total(2, predicate_cost(cond)), least)
        },
        Ast::Subquery { pipeline } => total(2000, predicate_cost(pipeline)),
    }
}

/// The conditions of a chain of `and`.
pub open spec fn conjuncts(a: AstV) -> Seq<AstV>
    decreases a,
{
    match a {
        AstV::And(l, r) => conjuncts(*l) + conjuncts(*r),
        _ => seq![a],
    }
}

/// The conditions of a chain of `or`.
pub open spec fn disjuncts(a: AstV) -> Seq<AstV>
    decreases a,
{
    match a {
        AstV::Or(l, r) => disjuncts(*l) + disjuncts(*r),
        _ => seq![a],
    }
}

/// Puts a condition behind those that cost no more.
pub open spec fn put_by_cost(v: Seq<AstV>, a: AstV) -> Seq<AstV>
    decreases v.len(),
{
    if v.len() > 0 && cost(v.last()) > cost(a) {
        put_by_cost(v.drop_last(), a).push(v.last())
    } else {
        v.push(a)
    }
}

/// Conditions by their cost; equal ones keep their order.
pub open spec fn by_cost(v: Seq<AstV>) -> Seq<AstV>
    decreases v.len(),
{
    if v.len() == 0 {
        Seq::empty()
    } else {
        put_by_cost(by_cost(v.drop_last()), v.last())
    }
}

pub open spec fn all_and(v: Seq<AstV>) -> AstV
    decreases v.len(),
{
    if v.len() <= 1 {
        v[0]
    } else {
        AstV::And(Box::new(all_and(v.drop_last())), Box::new(v.last()))
    }
}

pub open spec fn all_or(v: Seq<AstV>) -> AstV
    decreases v.len(),
{
    if v.len() <= 1 {
        v[0]
    } else {
        AstV::Or(Box::new(all_or(v.drop_last())), Box::new(v.last()))
    }
}

/// A condition with its chain reordered.
pub open spec fn reordered(a: AstV) -> AstV {
    match a {
        AstV::And(_, _) => all_and(by_cost(conjuncts(a))),
        AstV::Or(_, _) => all_or(by_cost(disjuncts(a))),
        _ => a,
    }
}

fn flatten_and(a: Ast) -> (out: Vec<Ast>)
    ensures
        views(out@) == conjuncts(a@),
        out@.len() > 0,
    decreases a,
{
    match a {
        Ast::And(l, r) => {
            let mut out = flatten_and(*l);
            let mut rest = flatten_and(*r);
            let ghost x = views(out@);
            let ghost y = views(rest@);
            out.append(&mut rest);
            assert(views(out@) =~= x + y);
            out
        },
        _ => {
            let mut out: Vec<Ast> = Vec::new();
            let ghost v = a@;
            out.push(a);
            assert(views(out@) =~= seq![v]);
            out
        },
    }
}

fn flatten_or(a: Ast) -> (out: Vec<Ast>)
    ensures
        views(out@) == disjuncts(a@),
        out@.len() > 0,
    decreases a,
{
    match a {
        Ast::Or(l, r) => {
            let mut out = flatten_or(*l);
            let mut rest = flatten_or(*r);
            let ghost x = views(out@);
            let ghost y = views(rest@);
            out.append(&mut rest);
            assert(views(out@) =~= x + y);
            out
        },
        _ => {
            let mut out: Vec<Ast> = Vec::new();
            let ghost v = a@;
            out.push(a);
            assert(views(out@) =~= seq![v]);
            out
        },
    }
}

/// Sorts conditions by their cost.
#[verifier::spinoff_prover]
fn sort_by_cost(v: Vec<Ast>) -> (out: Vec<Ast>)
    ensures
        views(out@) == by_cost(views(v@)),
        out@.len() == v@.len(),
{
    let ghost all = views(v@);
    let mut left = v;
    let mut turned: Vec<Ast> = Vec::new();
    let ghost n = left@.len();
    while left.len() > 0
        invariant
            all.len() == n,
            left@.len() + turned@.len() == n,
            views(left@) =~= all.take(left@.len() as int),
            views(turned@) =~= all.skip(left@.len() as int).reverse(),
        decreases left@.len(),
    {
        let ghost before = left@;
        let ghost t = turned@;
        if let Some(a) = left.pop() {
            turned.push(a);
            proof {
                let k = left@.len() as int;
                assert(views(before)[k] == a@);
                assert(all[k] == views(before)[k]);
                assert(views(turned@) =~= views(t).push(a@));
                assert(all.skip(k).reverse() =~= all.skip(k + 1).reverse().push(all[k]));
                assert(views(left@) =~= views(before).take(k));
            }
        }
    }
    let mut out: Vec<Ast> = Vec::new();
    proof {
        assert(views(out@) =~= by_cost(all.take(0)));
        assert(views(turned@) =~= all.skip(0).reverse());
    }
    while turned.len() > 0
        invariant
            all.len() == n,
            out@.len() + turned@.len() == n,
            views(out@) == by_cost(all.take(out@.len() as int)),
            views(turned@) =~= all.skip(out@.len() as int).reverse(),
        decreases turned@.len(),
    {
        let ghost before = turned@;
        let ghost k = out@.len() as int;
        if let Some(a) = turned.pop() {
            proof {
                assert(views(before).last() == a@);
                assert(all.skip(k).reverse().last() == all[k]);
                assert(views(turned@) =~= views(before).drop_last());
                assert(all.skip(k + 1).reverse() =~= all.skip(k).reverse().drop_last());
                let next = all.take(k + 1);
                assert(next.drop_last() =~= all.take(k));
                assert(next.last() == all[k]);
            }
            out = put_in_place(out, a);
        }
    }
    assert(all.take(out@.len() as int) =~= all);
    out
}

#[verifier::spinoff_prover]
fn put_in_place(v: Vec<Ast>, a: Ast) -> (out: Vec<Ast>)
    ensures
        views(out@) == put_by_cost(views(v@), a@),
        out@.len() == v@.len() + 1,
{
    let ghost all = views(v@);
    let ghost av = a@;
    let here = predicate_cost(&a);
    let mut kept = v;
    let mut p: usize = kept.len();
    proof {
        assert(all.take(p as int) =~= all);
        assert(all.subrange(p as int, all.len() as int) =~= Seq::empty());
        assert(put_by_cost(all, av) + Seq::<AstV>::empty() =~= put_by_cost(all, av));
    }
    while p > 0 && predicate_cost(&kept[p - 1]) > here
        invariant
            all == views(kept@),
            all.len() == kept@.len(),
            here == cost(av),
            p <= kept@.len(),
            put_by_cost(all, av) == put_by_cost(all.take(p as int), av) + all.subrange(
                p as int,
                all.len() as int,
            ),
        decreases p,
    {
        proof {
            let t = all.take(p as int);
            assert(t.last() == all[p - 1]);
            assert(all[p - 1] == kept@[p - 1]@);
            assert(t.drop_last() =~= all.take(p - 1));
            let rest = put_by_cost(all.take(p - 1), av);
            assert(rest.push(all[p - 1]) + all.subrange(p as int, all.len() as int) =~= rest
                + all.subrange(p - 1, all.len() as int));
        }
        p -= 1;
    }
    proof {
        let t = all.take(p as int);
        if p > 0 {
            assert(t.last() == all[p - 1]);
            assert(all[p - 1] == kept@[p - 1]@);
        }
        assert(put_by_cost(t, av) == t.push(av));
    }
    kept.insert(p, a);
    assert(views(kept@) =~= all.take(p as int).push(av) + all.subrange(
        p as int,
        all.len() as int,
    ));
    kept
}

fn join_and(v: Vec<Ast>) -> (a: Ast)
    requires
        v@.len() > 0,
    ensures
        a@ == all_and(views(v@)),
    decreases v@.len(),
{
    let mut v = v;
    let ghost all = views(v@);
    let ghost given = v@;
    match v.pop() {
        Some(last) => {
            assert(all.last() == last@);
            assert(views(v@) =~= all.drop_last());
            if v.len() == 0 {
                last
            } else {
                Ast::And(Box::new(join_and(v)), Box::new(last))
            }
        },
        None => Ast::Identity,
    }
}

fn join_or(v: Vec<Ast>) -> (a: Ast)
    requires
        v@.len() > 0,
    ensures
        a@ == all_or(views(v@)),
    decreases v@.len(),
{
    let mut v = v;
    let ghost all = views(v@);
    match v.pop() {
        Some(last) => {
            assert(all.last() == last@);
            assert(views(v@) =~= all.drop_last());
            if v.len() == 0 {
                last
            } else {
                Ast::Or(Box::new(join_or(v)), Box::new(last))
            }
        },
        None => Ast::Identity,
    }
}

proof fn put_keeps(v: Seq<AstV>, a: AstV)
    ensures
        put_by_cost(v, a).len() == v.len() + 1,
        put_by_cost(v, a).to_multiset() == v.to_multiset().insert(a),
        forall|i: int|
            0 <= i < put_by_cost(v, a).len() ==> #[trigger] put_by_cost(v, a)[i] == a || v.contains(
                put_by_cost(v, a)[i],
            ),
    decreases v.len(),
{
    broadcast use vstd::seq_lib::group_to_multiset_ensures;

    if v.len() > 0 && cost(v.last()) > cost(a) {
        let w = v.drop_last();
        put_keeps(w, a);
        assert(w.push(v.last()) =~= v);
        let put = put_by_cost(w, a);
        assert(put.push(v.last()).to_multiset() == put.to_multiset().insert(v.last()));
        assert(v.to_multiset() == w.to_multiset().insert(v.last()));
        assert(w.to_multiset().insert(a).insert(v.last()) =~= w.to_multiset().insert(
            v.last(),
        ).insert(a));
        assert forall|i: int| 0 <= i < put_by_cost(v, a).len() implies #[trigger] put_by_cost(
            v,
            a,
        )[i] == a || v.contains(put_by_cost(v, a)[i]) by {
            if i < put.len() {
                if put[i] != a {
                    let k = choose|k: int| 0 <= k < w.len() && w[k] == put[i];
                    assert(v[k] == put[i]);
                }
            } else {
                assert(v[v.len() - 1] == v.last());
            }
        }
    } else {
        assert forall|i: int| 0 <= i < put_by_cost(v, a).len() implies #[trigger] put_by_cost(
            v,
            a,
        )[i] == a || v.contains(put_by_cost(v, a)[i]) by {
            if i < v.len() {
                assert(v[i] == put_by_cost(v, a)[i]);
            }
        }
    }
}

proof fn put_sorts(v: Seq<AstV>, a: AstV)
    requires
        forall|i: int, j: int| 0 <= i <= j < v.len() ==> cost(v[i]) <= cost(v[j]),
    ensures
        forall|i: int, j: int|
            0 <= i <= j < put_by_cost(v, a).len() ==> cost(#[trigger] put_by_cost(v, a)[i]) <= cost(
                #[trigger] put_by_cost(v, a)[j],
            ),
    decreases v.len(),
{
    if v.len() > 0 && cost(v.last()) > cost(a) {
        let w = v.drop_last();
        put_sorts(w, a);
        put_keeps(w, a);
        let put = put_by_cost(w, a);
        assert forall|i: int| 0 <= i < put.len() implies cost(#[trigger] put[i]) <= cost(
            v.last(),
        ) by {
            if put[i] != a {
                let k = choose|k: int| 0 <= k < w.len() && w[k] == put[i];
                assert(v[k] == put[i] && v[v.len() - 1] == v.last());
            }
        }
    }
}

/// Sorting by cost keeps the conditions, however often each occurs, and
/// leaves none before one that costs less.
pub proof fn by_cost_sorts(v: Seq<AstV>)
    ensures
        by_cost(v).to_multiset() == v.to_multiset(),
        forall|i: int, j: int|
            0 <= i <= j < v.len() ==> cost(#[trigger] by_cost(v)[i]) <= cost(
                #[trigger] by_cost(v)[j],
            ),
        by_cost(v).len() == v.len(),
    decreases v.len(),
{
    broadcast use vstd::seq_lib::group_to_multiset_ensures;

    if v.len() > 0 {
        let w = v.drop_last();
        by_cost_sorts(w);
        put_keeps(by_cost(w), v.last());
        put_sorts(by_cost(w), v.last());
        assert(w.push(v.last()) =~= v);
    } else {
        assert(v =~= Seq::empty());
    }
}

proof fn conjuncts_flat(a: AstV)
    ensures
        conjuncts(a).len() > 0,
        forall|i: int| 0 <= i < conjuncts(a).len() ==> !(#[trigger] conjuncts(a)[i] is And),
    decreases a,
{
    match a {
        AstV::And(l, r) => {
            conjuncts_flat(*l);
            conjuncts_flat(*r);
        },
        _ => {},
    }
}

proof fn disjuncts_flat(a: AstV)
    ensures
        disjuncts(a).len() > 0,
        forall|i: int| 0 <= i < disjuncts(a).len() ==> !(#[trigger] disjuncts(a)[i] is Or),
    decreases a,
{
    match a {
        AstV::Or(l, r) => {
            disjuncts_flat(*l);
            disjuncts_flat(*r);
        },
        _ => {},
    }
}

proof fn and_back(v: Seq<AstV>)
    requires
        v.len() > 0,
        forall|i: int| 0 <= i < v.len() ==> !(#[trigger] v[i] is And),
    ensures
        conjuncts(all_and(v)) == v,
    decreases v.len(),
{
    if v.len() == 1 {
        assert(!(v[0] is And));
        assert(seq![v[0]] =~= v);
    } else {
        and_back(v.drop_last());
        assert(!(v[v.len() - 1] is And));
        assert(conjuncts(v.last()) =~= seq![v.last()]);
        assert(v.drop_last() + seq![v.last()] =~= v);
    }
}

proof fn or_back(v: Seq<AstV>)
    requires
        v.len() > 0,
        forall|i: int| 0 <= i < v.len() ==> !(#[trigger] v[i] is Or),
    ensures
        disjuncts(all_or(v)) == v,
    decreases v.len(),
{
    if v.len() == 1 {
        assert(!(v[0] is Or));
        assert(seq![v[0]] =~= v);
    } else {
        or_back(v.drop_last());
        assert(!(v[v.len() - 1] is Or));
        assert(disjuncts(v.last()) =~= seq![v.last()]);
        assert(v.drop_last() + seq![v.last()] =~= v);
    }
}

proof fn by_cost_members(v: Seq<AstV>, i: int)
    requires
        0 <= i < v.len(),
    ensures
        v.contains(by_cost(v)[i]),
{
    broadcast use vstd::seq_lib::group_to_multiset_ensures;

    by_cost_sorts(v);
    let x = by_cost(v)[i];
    assert(by_cost(v).contains(x));
    assert(by_cost(v).to_multiset().count(x) > 0);
    assert(v.to_multiset().count(x) > 0);
}

/// Sorting by cost neither adds a condition nor drops one.
pub proof fn by_cost_same_members(v: Seq<AstV>, x: AstV)
    ensures
        by_cost(v).contains(x) <==> v.contains(x),
{
    broadcast use vstd::seq_lib::group_to_multiset_ensures;

    by_cost_sorts(v);
    assert(by_cost(v).contains(x) <==> by_cost(v).to_multiset().count(x) > 0);
    assert(v.contains(x) <==> v.to_multiset().count(x) > 0);
}

/// A reordered chain of `and` has the same conditions as before, cheapest
/// first.
pub proof fn reordering_keeps_conjuncts(a: AstV)
    requires
        a is And,
    ensures
        conjuncts(reordered(a)) == by_cost(conjuncts(a)),
        conjuncts(reordered(a)).to_multiset() == conjuncts(a).to_multiset(),
{
    let v = conjuncts(a);
    conjuncts_flat(a);
    by_cost_sorts(v);
    assert forall|i: int| 0 <= i < by_cost(v).len() implies !(#[trigger] by_cost(v)[i] is And) by {
        by_cost_members(v, i);
    }
    and_back(by_cost(v));
}

/// A reordered chain of `or` has the same conditions as before, cheapest
/// first.
pub proof fn reordering_keeps_disjuncts(a: AstV)
    requires
        a is Or,
    ensures
        disjuncts(reordered(a)) == by_cost(disjuncts(a)),
        disjuncts(reordered(a)).to_multiset() == disjuncts(a).to_multiset(),
{
    let v = disjuncts(a);
    disjuncts_flat(a);
    by_cost_sorts(v);
    assert forall|i: int| 0 <= i < by_cost(v).len() implies !(#[trigger] by_cost(v)[i] is Or) by {
        by_cost_members(v, i);
    }
    or_back(by_cost(v));
}

/// A condition with its chain reordered.
pub fn reorder_predicate_chain(a: Ast) -> (r: Ast)
    ensures
        r@ == reordered(a@),
{
    match a {
        Ast::And(_, _) => join_and(sort_by_cost(flatten_and(a))),
        Ast::Or(_, _) => join_or(sort_by_cost(flatten_or(a))),
        _ => a,
    }
}

} // verus!
