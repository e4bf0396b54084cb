//! The lookups in a query tree.
use vstd::prelude::*;

use super::super::ast::{
    field_views, group_key_views, key_views, opt_view, output_views, reduction_views, views,
    AggGroup, AggGroupKey, AggGroupKeyV, AggGroupV, AggOutputNode, AggOutputV, AggReduction,
    AggReductionV, Ast, AstV, SortDir,
};

verus! {

/// The lookups in a tree, outermost first and from left to right.
#[verifier::opaque]
pub open spec fn lookups(a: AstV) -> Seq<AstV>
    decreases a,
{
    match a {
        AstV::Lookup { source, key, .. } => seq![a] + lookups(*source) + lookups(*key),
        AstV::JoinEach { outer_key, lookup, .. } => lookups(*outer_key) + lookups(*lookup),
        AstV::UnnestEach { source, .. } => lookups(*source),
        AstV::Subquery { pipeline } => lookups(*pipeline),
        AstV::Pipe(l, r) => lookups(*l) + lookups(*r),
        AstV::And(l, r) => lookups(*l) + lookups(*r),
        AstV::Or(l, r) => lookups(*l) + lookups(*r),
        AstV::Compare(l, _, r) => lookups(*l) + lookups(*r),
        AstV::By(l, r) => lookups(*l) + lookups(*r),
        AstV::Select(e) => lookups(*e),
        AstV::Exists(e) => lookups(*e),
        AstV::Tap(e) => lookups(*e),
        AstV::Let { value, .. } => lookups(*value),
        AstV::FieldSetEquals { base, target, .. } => lookups(*base) + lookups(*target),
        AstV::Project(f) => lookups_named(f),
        AstV::Object(f) => lookups_named(f),
        AstV::SortBy(k) => lookups_sort(k),
        AstV::KeyTuple(v) => lookups_each(v),
        AstV::ArrayLit(v) => lookups_each(v),
        AstV::Call { args, .. } => lookups_each(args),
        AstV::AggregateBlock { group, reductions, outputs } => lookups_group(group)
            + lookups_reductions(reductions) + lookups_outputs(outputs),
        AstV::Binary { lhs, rhs, .. } => lookups(*lhs) + lookups(*rhs),
        AstV::Neg(e) => lookups(*e),
        AstV::TypeTest { value, .. } => lookups(*value),
        AstV::Round { value, precision } => lookups(*value) + lookups_opt(precision),
        AstV::If { cond, then_branch, else_branch } => lookups(*cond) + lookups(*then_branch)
            + lookups(*else_branch),
        _ => Seq::empty(),
    }
}

#[verifier::opaque]
pub open spec fn lookups_opt(o: Option<Box<AstV>>) -> Seq<AstV>
    decreases o,
{
    match o {
        Some(a) => lookups(*a),
        None => Seq::empty(),
    }
}

#[verifier::opaque]
pub open spec fn lookups_reduction(r: AggReductionV) -> Seq<AstV>
    decreases r,
{
    lookups_opt(r.value) + lookups_opt(r.where_pred)
}

#[verifier::opaque]
pub open spec fn lookups_group(g: Option<AggGroupV>) -> Seq<AstV>
    decreases g,
{
    match g {
        None => Seq::empty(),
        Some(AggGroupV::Single { key, .. }) => lookups(*key),
        Some(AggGroupV::Rollup(keys)) => lookups_keys(keys),
    }
}

#[verifier::opaque]
pub open spec fn lookups_output(o: AggOutputV) -> Seq<AstV>
    decreases o,
{
    match o {
        AggOutputV::Leaf { expr, default } => lookups(*expr) + lookups_opt(default),
        AggOutputV::Object(fields) => lookups_outputs(fields),
    }
}

#[verifier::opaque]
pub open spec fn lookups_each(v: Seq<AstV>) -> Seq<AstV>
    decreases v,
{
    if v.len() == 0 {
        Seq::empty()
    } else {
        lookups_each(v.drop_last()) + lookups(v.last())
    }
}

#[verifier::opaque]
pub open spec fn lookups_named(v: Seq<(Seq<char>, AstV)>) -> Seq<AstV>
    decreases v,
{
    if v.len() == 0 {
        Seq::empty()
    } else {
        lookups_named(v.drop_last()) + lookups(v.last().1)
    }
}

#[verifier::opaque]
pub open spec fn lookups_sort(v: Seq<(AstV, SortDir)>) -> Seq<AstV>
    decreases v,
{
    if v.len() == 0 {
        Seq::empty()
    } else {
        lookups_sort(v.drop_last()) + lookups(v.last().0)
    }
}

#[verifier::opaque]
pub open spec fn lookups_keys(v: Seq<AggGroupKeyV>) -> Seq<AstV>
    decreases v,
{
    if v.len() == 0 {
        Seq::empty()
    } else {
        lookups_keys(v.drop_last()) + lookups(*v.last().key)
    }
}

#[verifier::opaque]
pub open spec fn lookups_reductions(v: Seq<AggReductionV>) -> Seq<AstV>
    decreases v,
{
    if v.len() == 0 {
        Seq::empty()
    } else {
        lookups_reductions(v.drop_last()) + lookups_reduction(v.last())
    }
}

#[verifier::opaque]
pub open spec fn lookups_outputs(v: Seq<(Seq<char>, AggOutputV)>) -> Seq<AstV>
    decreases v,
{
    if v.len() == 0 {
        Seq::empty()
    } else {
        lookups_outputs(v.drop_last()) + lookups_output(v.last().1)
    }
}

/// The trees that were found.
pub open spec fn found(v: Seq<&Ast>) -> Seq<AstV> {
    Seq::new(v.len(), |i: int| v[i]@)
}

fn joined<'a>(a: Vec<&'a Ast>, b: Vec<&'a Ast>) -> (out: Vec<&'a Ast>)
    ensures
        found(out@) == found(a@) + found(b@),
{
    let ghost x = found(a@);
    let ghost y = found(b@);
    let mut out = a;
    let mut rest = b;
    out.append(&mut rest);
    assert(found(out@) =~= x + y);
    out
}

fn none<'a>() -> (out: Vec<&'a Ast>)
    ensures
        found(out@) == Seq::<AstV>::empty(),
{
    let out: Vec<&'a Ast> = Vec::new();
    assert(found(out@) =~= Seq::empty());
    out
}

/// Those of a run of trees.
#[verifier::spinoff_prover]
fn collect_each<'a>(v: &'a Vec<Ast>) -> (out: Vec<&'a Ast>)
    ensures
        found(out@) == lookups_each(views(v@)),
    decreases v, 0nat,
{
    let ghost all = views(v@);
    let mut out: Vec<&'a Ast> = Vec::new();
    let mut i: usize = 0;
    proof {
        reveal(lookups_each);
        reveal(lookups);
        assert(all.take(0) =~= Seq::empty());
        assert(found(out@) =~= Seq::empty());
    }
    while i < v.len()
        invariant
            i <= v@.len(),
            all == views(v@),
            all.len() == v@.len(),
            found(out@) == lookups_each(all.take(i as int)),
        decreases v@.len() - i,
    {
        proof {
            reveal(lookups_each);
            reveal(lookups);
            let next = all.take(i + 1);
            assert(next.drop_last() =~= all.take(i as int));
            assert(next.last() == all[i as int]);
            assert(decreases_to!(v => v@[i as int]));
        }
        let part = collect_lookups(&v[i]);
        out = joined(out, part);
        i += 1;
    }
    assert(all.take(i as int) =~= all);
    out
}

/// Those of named trees.
#[verifier::spinoff_prover]
fn collect_named<'a>(v: &'a Vec<(String, Ast)>) -> (out: Vec<&'a Ast>)
    ensures
        found(out@) == lookups_named(field_views(v@)),
    decreases v, 0nat,
{
    let ghost all = field_views(v@);
    let mut out: Vec<&'a Ast> = Vec::new();
    let mut i: usize = 0;
    proof {
        reveal(lookups_named);
        reveal(lookups);
        assert(all.take(0) =~= Seq::empty());
        assert(found(out@) =~= Seq::empty());
    }
    while i < v.len()
        invariant
            i <= v@.len(),
            all == field_views(v@),
            all.len() == v@.len(),
            found(out@) == lookups_named(all.take(i as int)),
        decreases v@.len() - i,
    {
        proof {
            reveal(lookups_named);
            reveal(lookups);
            let next = all.take(i + 1);
            assert(next.drop_last() =~= all.take(i as int));
            assert(next.last() == all[i as int]);
            assert(decreases_to!(v => v@[i as int]));
        }
        let part = collect_lookups(&v[i].1);
        out = joined(out, part);
        i += 1;
    }
    assert(all.take(i as int) =~= all);
    out
}

/// Those of sort keys.
#[verifier::spinoff_prover]
fn collect_sort<'a>(v: &'a Vec<(Ast, SortDir)>) -> (out: Vec<&'a Ast>)
    ensures
        found(out@) == lookups_sort(key_views(v@)),
    decreases v, 0nat,
{
    let ghost all = key_views(v@);
    let mut out: Vec<&'a Ast> = Vec::new();
    let mut i: usize = 0;
    proof {
        reveal(lookups_sort);
        reveal(lookups);
        assert(all.take(0) =~= Seq::empty());
        assert(found(out@) =~= Seq::empty());
    }
    while i < v.len()
        invariant
            i <= v@.len(),
            all == key_views(v@),
            all.len() == v@.len(),
            found(out@) == lookups_sort(all.take(i as int)),
        decreases v@.len() - i,
    {
        proof {
            reveal(lookups_sort);
            reveal(lookups);
            let next = all.take(i + 1);
            assert(next.drop_last() =~= all.take(i as int));
            assert(next.last() == all[i as int]);
            assert(decreases_to!(v => v@[i as int]));
        }
        let part = collect_lookups(&v[i].0);
        out = joined(out, part);
        i += 1;
    }
    assert(all.take(i as int) =~= all);
    out
}

/// Those of the keys of a rollup.
#[verifier::spinoff_prover]
fn collect_keys_of<'a>(v: &'a Vec<AggGroupKey>) -> (out: Vec<&'a Ast>)
    ensures
        found(out@) == lookups_keys(group_key_views(v@)),
    decreases v, 0nat,
{
    let ghost all = group_key_views(v@);
    let mut out: Vec<&'a Ast> = Vec::new();
    let mut i: usize = 0;
    proof {
        reveal(lookups_keys);
        reveal(lookups);
        assert(all.take(0) =~= Seq::empty());
        assert(found(out@) =~= Seq::empty());
    }
    while i < v.len()
        invariant
            i <= v@.len(),
            all == group_key_views(v@),
            all.len() == v@.len(),
            found(out@) == lookups_keys(all.take(i as int)),
        decreases v@.len() - i,
    {
        proof {
            reveal(lookups_keys);
            reveal(lookups);
            let next = all.take(i + 1);
            assert(next.drop_last() =~= all.take(i as int));
            assert(next.last() == all[i as int]);
            assert(decreases_to!(v => v@[i as int]));
        }
        let part = collect_lookups(&*v[i].key);
        out = joined(out, part);
        i += 1;
    }
    assert(all.take(i as int) =~= all);
    out
}

/// Those of reductions.
#[verifier::spinoff_prover]
fn collect_reductions<'a>(v: &'a Vec<AggReduction>) -> (out: Vec<&'a Ast>)
    ensures
        found(out@) == lookups_reductions(reduction_views(v@)),
    decreases v, 0nat,
{
    let ghost all = reduction_views(v@);
    let mut out: Vec<&'a Ast> = Vec::new();
    let mut i: usize = 0;
    proof {
        reveal(lookups_reductions);
        reveal(lookups_reduction);
        assert(all.take(0) =~= Seq::empty());
        assert(found(out@) =~= Seq::empty());
    }
    while i < v.len()
        invariant
            i <= v@.len(),
            all == reduction_views(v@),
            all.len() == v@.len(),
            found(out@) == lookups_reductions(all.take(i as int)),
        decreases v@.len() - i,
    {
        proof {
            reveal(lookups_reductions);
            reveal(lookups_reduction);
            let next = all.take(i + 1);
            assert(next.drop_last() =~= all.take(i as int));
            assert(next.last() == all[i as int]);
            assert(decreases_to!(v => v@[i as int]));
        }
        let part = collect_reduction(&v[i]);
        out = joined(out, part);
        i += 1;
    }
    assert(all.take(i as int) =~= all);
    out
}

/// Those of outputs.
#[verifier::spinoff_prover]
fn collect_outputs<'a>(v: &'a Vec<(String, AggOutputNode)>) -> (out: Vec<&'a Ast>)
    ensures
        found(out@) == lookups_outputs(output_views(v@)),
    decreases v, 0nat,
{
    let ghost all = output_views(v@);
    let mut out: Vec<&'a Ast> = Vec::new();
    let mut i: usize = 0;
    proof {
        reveal(lookups_outputs);
        reveal(lookups_output);
        assert(all.take(0) =~= Seq::empty());
        assert(found(out@) =~= Seq::empty());
    }
    while i < v.len()
        invariant
            i <= v@.len(),
            all == output_views(v@),
            all.len() == v@.len(),
            found(out@) == lookups_outputs(all.take(i as int)),
        decreases v@.len() - i,
    {
        proof {
            reveal(lookups_outputs);
            reveal(lookups_output);
            let next = all.take(i + 1);
            assert(next.drop_last() =~= all.take(i as int));
            assert(next.last() == all[i as int]);
            assert(decreases_to!(v => v@[i as int]));
        }
        let part = collect_lookups_in_agg_output(&v[i].1);
        out = joined(out, part);
        i += 1;
    }
    assert(all.take(i as int) =~= all);
    out
}

fn collect_opt<'a>(o: &'a Option<Box<Ast>>) -> (out: Vec<&'a Ast>)
    ensures
        found(out@) == lookups_opt(opt_view(*o)),
    decreases o, 0nat,
{
    proof {
        reveal(lookups_opt);
        reveal(lookups);
    }
    match o {
        Some(a) => collect_lookups(a),
        None => none(),
    }
}

#[verifier::spinoff_prover]
fn collect_reduction<'a>(r: &'a AggReduction) -> (out: Vec<&'a Ast>)
    ensures
        found(out@) == lookups_reduction(r@),
    decreases r, 0nat,
{
    proof {
        reveal(lookups_reduction);
        reveal(lookups_opt);
    }
    joined(collect_opt(&r.value), collect_opt(&r.where_pred))
}

#[verifier::spinoff_prover]
fn collect_group<'a>(g: &'a Option<AggGroup>) -> (out: Vec<&'a Ast>)
    ensures
        found(out@) == lookups_group(
            match *g {
                Some(x) => Some(x@),
                None => None,
            },
        ),
    decreases g, 0nat,
{
    proof {
        reveal(lookups_group);
        reveal(lookups_keys);
        reveal(lookups);
    }
    match g {
        None => none(),
        Some(AggGroup::Single { key, .. }) => collect_lookups(key),
        Some(AggGroup::Rollup(keys)) => collect_keys_of(keys),
    }
}

#[verifier::spinoff_prover]
fn collect_lookups_in_agg_output<'a>(o: &'a AggOutputNode) -> (out: Vec<&'a Ast>)
    ensures
        found(out@) == lookups_output(o@),
    decreases o, 0nat,
{
    proof {
        reveal(lookups_output);
        reveal(lookups_outputs);
        reveal(lookups_opt);
        reveal(lookups);
    }
    match o {
        AggOutputNode::Leaf { expr, default } => joined(collect_lookups(expr), collect_opt(default)),
        AggOutputNode::Object(fields) => collect_outputs(fields),
    }
}

/// The lookups in a tree, outermost first and from left to right.
#[verifier::spinoff_prover]
pub fn collect_lookups<'a>(ast: &'a Ast) -> (out: Vec<&'a Ast>)
    ensures
        found(out@) == lookups(ast@),
    decreases ast, 0nat,
{
    proof {
        reveal(lookups);
    }
    match ast {
        Ast::Lookup { source, key, .. } => {
            let mut out: Vec<&'a Ast> = Vec::new();
            out.push(ast);
            assert(found(out@) =~= seq![ast@]);
            joined(joined(out, collect_lookups(source)), collect_lookups(key))
        },
        Ast::JoinEach { outer_key, lookup, .. } => joined(
            collect_lookups(outer_key),
            collect_lookups(lookup),
        ),
        Ast::UnnestEach { source, .. } => collect_lookups(source),
        Ast::Subquery { pipeline } => collect_lookups(pipeline),
        Ast::Pipe(l, r) => joined(collect_lookups(l), collect_lookups(r)),
        Ast::And(l, r) => joined(collect_lookups(l), collect_lookups(r)),
        Ast::Or(l, r) => joined(collect_lookups(l), collect_lookups(r)),
        Ast::Compare(l, _, r) => joined(collect_lookups(l), collect_lookups(r)),
        Ast::By(l, r) => joined(collect_lookups(l), collect_lookups(r)),
        Ast::Select(e) => collect_lookups(e),
        Ast::Exists(e) => collect_lookups(e),
        Ast::Tap(e) => collect_lookups(e),
        Ast::Let { value, .. } => collect_lookups(value),
        Ast::FieldSetEquals { base, target, .. } => joined(
            collect_lookups(base),
            collect_lookups(target),
        ),
        Ast::Project(f) => collect_named(f),
        Ast::Object(f) => collect_named(f),
        Ast::SortBy(k) => collect_sort(k),
        Ast::KeyTuple(v) => collect_each(v),
        Ast::ArrayLit(v) => collect_each(v),
        Ast::Call { args, .. } => collect_each(args),
        Ast::AggregateBlock { group, reductions, outputs } => joined(
            joined(collect_group(group), collect_reductions(reductions)),
            collect_outputs(outputs),
        ),
        Ast::Binary { lhs, rhs, .. } => joined(collect_lookups(lhs), collect_lookups(rhs)),
        Ast::Neg(e) => collect_lookups(e),
        Ast::TypeTest { value, .. } => collect_lookups(value),
        Ast::Round { value, precision } => joined(collect_lookups(value), collect_opt(precision)),
        Ast::If { cond, then_branch, else_branch } => joined(
            joined(collect_lookups(cond), collect_lookups(then_branch)),
            collect_lookups(else_branch),
        ),
        _ => none(),
    }
}

} // verus!
