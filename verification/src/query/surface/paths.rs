//! What compiled paths mean: step by step, from a value to those below it.
use vstd::prelude::*;

use super::super::ast::AstV;
use super::super::evaluator::model::{one, CtxV, EnvV, RowV};
use super::super::evaluator::reaching::{
    descended_fields_are_fields_below, each_gives_all, each_of_one, each_step,
    iterated_fields_are_fields_of_children, pipe_runs_on_each_row, row_stage,
};
use super::super::evaluator::semantics::{each, followed, run};
use super::super::value::ValueV;
use super::super::QueryFault;
use super::ast::{PathExprV, PathRootV, PathSegV};
use super::lowering::{lowered_path, piped, ScopeV};
use crate::document::NULL_NODE;

verus! {

/// The stage that a step of a path is.
pub open spec fn step_stage(g: PathSegV) -> AstV {
    match g {
        PathSegV::Field(n) => AstV::Field(n),
        PathSegV::Index(i) => AstV::Index(i),
        PathSegV::Iterate => AstV::Iterate,
        PathSegV::StarStar => AstV::Descend,
        PathSegV::FieldSet(_) => AstV::Identity,
    }
}

/// A path without field sets.
pub open spec fn plain_steps(v: Seq<PathSegV>) -> bool {
    forall|i: int| 0 <= i < v.len() ==> !((#[trigger] v[i]) is FieldSet)
}

/// The path with one more step.
pub open spec fn longer(p: PathExprV, g: PathSegV) -> PathExprV {
    PathExprV { root: p.root, segments: p.segments.push(g) }
}

/// All rows hold nodes of the document.
pub open spec fn at_nodes(rows: Seq<RowV>) -> bool {
    forall|i: int| 0 <= i < rows.len() ==> (#[trigger] rows[i]).value is Node
}

/// Two stages that give the same on each of these rows.
#[verifier::spinoff_prover]
proof fn each_alike(c: CtxV, a: AstV, b: AstV, f: AstV, rows: Seq<RowV>)
    requires
        row_stage(f),
        forall|i: int|
            0 <= i < rows.len() ==> run(c, b, (#[trigger] rows[i]).env, rows[i].value) == run(
                c,
                AstV::Pipe(Box::new(a), Box::new(f)),
                rows[i].env,
                rows[i].value,
            ),
    ensures
        each(c, b, rows) == followed(each(c, f, each(c, a, rows).rows), each(c, a, rows).err),
    decreases rows.len(),
{
    each_step(c, a, rows);
    each_step(c, b, rows);
    if rows.len() == 0 {
        each_step(c, f, each(c, a, rows).rows);
    } else {
        let less = rows.drop_last();
        assert forall|i: int| 0 <= i < less.len() implies run(
            c,
            b,
            (#[trigger] less[i]).env,
            less[i].value,
        ) == run(c, AstV::Pipe(Box::new(a), Box::new(f)), less[i].env, less[i].value) by {
            assert(less[i] == rows[i]);
        }
        each_alike(c, a, b, f, less);
        let row = rows[rows.len() - 1];
        pipe_runs_on_each_row(c, a, f, row.env, row.value);
        let s = each(c, a, less);
        let t = run(c, a, row.env, row.value);
        if s.err is None {
            if each(c, f, s.rows).err is None {
                each_gives_all(c, f, s.rows, t.rows);
            } else {
                each_breaks(c, f, s.rows, t.rows);
            }
        }
    }
}

/// Behind an error nothing more comes.
proof fn each_breaks(c: CtxV, f: AstV, a: Seq<RowV>, b: Seq<RowV>)
    requires
        each(c, f, a).err is Some,
    ensures
        each(c, f, a + b) == each(c, f, a),
    decreases b.len(),
{
    if b.len() == 0 {
        assert(a + b =~= a);
    } else {
        each_step(c, f, a + b);
        assert((a + b).drop_last() =~= a + b.drop_last());
        each_breaks(c, f, a, b.drop_last());
    }
}

/// What a tree gives before its last stage, where that is a descent.
pub open spec fn before_descent(c: CtxV, a: AstV, env: EnvV, v: ValueV) -> Seq<RowV> {
    match a {
        AstV::Descend => seq![RowV { env, value: v }],
        AstV::Pipe(l, r) => if *r is Descend {
            run(c, *l, env, v).rows
        } else {
            Seq::empty()
        },
        _ => Seq::empty(),
    }
}

/// A stage behind a tree runs on each row of it, whether or not it is read in
/// the walk before it. A descent starts from nodes.
#[verifier::spinoff_prover]
proof fn piped_runs_on_each_row(c: CtxV, l: AstV, r: AstV, env: EnvV, v: ValueV)
    requires
        row_stage(r),
        c.doc.records@.len() <= NULL_NODE,
        at_nodes(before_descent(c, l, env, v)),
    ensures
        run(c, piped(l, r), env, v) == followed(
            each(c, r, run(c, l, env, v).rows),
            run(c, l, env, v).err,
        ),
{
    let s = run(c, l, env, v);
    if l is Identity {
        assert(s == one(env, v)) by {
            reveal(run);
        }
        each_of_one(c, r, s.rows[0]);
        assert(s.rows =~= seq![s.rows[0]]);
        let t = run(c, r, env, v);
        assert(followed(t, None) == t);
    } else {
        pipe_runs_on_each_row(c, l, r, env, v);
        if let AstV::Field(n) = r {
            match l {
                AstV::Descend => {
                    let rows = before_descent(c, l, env, v);
                    assert(rows[0].value is Node);
                    if let ValueV::Node(id) = v {
                        descended_fields_are_fields_below(c, n, env, id);
                    }
                },
                AstV::Iterate => {
                    iterated_fields_are_fields_of_children(c, n, env, v);
                },
                AstV::Pipe(a, b) => {
                    let rows = run(c, *a, env, v).rows;
                    if *b is Descend {
                        let g = AstV::DescendField(n);
                        assert forall|i: int| 0 <= i < rows.len() implies run(
                            c,
                            g,
                            (#[trigger] rows[i]).env,
                            rows[i].value,
                        ) == run(
                            c,
                            AstV::Pipe(Box::new(AstV::Descend), Box::new(r)),
                            rows[i].env,
                            rows[i].value,
                        ) by {
                            assert(before_descent(c, l, env, v)[i].value is Node);
                            if let ValueV::Node(id) = rows[i].value {
                                descended_fields_are_fields_below(c, n, rows[i].env, id);
                            }
                        }
                        each_alike(c, AstV::Descend, g, r, rows);
                        pipe_runs_on_each_row(c, *a, g, env, v);
                        pipe_runs_on_each_row(c, *a, AstV::Descend, env, v);
                    } else if *b is Iterate {
                        let g = AstV::IterateField(n);
                        assert forall|i: int| 0 <= i < rows.len() implies run(
                            c,
                            g,
                            (#[trigger] rows[i]).env,
                            rows[i].value,
                        ) == run(
                            c,
                            AstV::Pipe(Box::new(AstV::Iterate), Box::new(r)),
                            rows[i].env,
                            rows[i].value,
                        ) by {
                            iterated_fields_are_fields_of_children(
                                c,
                                n,
                                rows[i].env,
                                rows[i].value,
                            );
                        }
                        each_alike(c, AstV::Iterate, g, r, rows);
                        pipe_runs_on_each_row(c, *a, g, env, v);
                        pipe_runs_on_each_row(c, *a, AstV::Iterate, env, v);
                    }
                },
                _ => {},
            }
        }
    }
}

/// A path without steps is its root: the row itself, or the value that its
/// alias is bound to.
#[verifier::spinoff_prover]
pub proof fn paths_start_at_their_root(c: CtxV, p: PathExprV, s: ScopeV, env: EnvV, v: ValueV)
    requires
        p.segments.len() == 0,
    ensures
        p.root is Identity ==> lowered_path(p, s) is Ok && run(
            c,
            lowered_path(p, s)->Ok_0,
            env,
            v,
        ) == one(env, v),
        p.root matches PathRootV::Name(n) ==> (s.aliases.contains(n) && s.strip != Some(n) ==> (
        lowered_path(p, s) is Ok && (env.get(n) matches Some(x) ==> run(
            c,
            lowered_path(p, s)->Ok_0,
            env,
            v,
        ) == one(env, x)))),
{
    reveal(run);
}

/// A path gives, step by step, what its last step gives on each row of the
/// path before it.
#[verifier::spinoff_prover]
pub proof fn paths_go_step_by_step(
    c: CtxV,
    p: PathExprV,
    g: PathSegV,
    s: ScopeV,
    env: EnvV,
    v: ValueV,
)
    requires
        !(g is FieldSet),
        lowered_path(p, s) is Ok,
        c.doc.records@.len() <= NULL_NODE,
        at_nodes(before_descent(c, lowered_path(p, s)->Ok_0, env, v)),
    ensures
        lowered_path(longer(p, g), s) is Ok,
        run(c, lowered_path(longer(p, g), s)->Ok_0, env, v) == followed(
            each(c, step_stage(g), run(c, lowered_path(p, s)->Ok_0, env, v).rows),
            run(c, lowered_path(p, s)->Ok_0, env, v).err,
        ),
{
    let a = lowered_path(p, s)->Ok_0;
    assert(p.segments.push(g).drop_last() =~= p.segments);
    assert(lowered_path(longer(p, g), s) == Ok::<AstV, QueryFault>(piped(a, step_stage(g))));
    piped_runs_on_each_row(c, a, step_stage(g), env, v);
}

/// In the key of a join's own rows, the alias of the join is the row itself.
#[verifier::spinoff_prover]
pub proof fn own_alias_is_the_row(
    c: CtxV,
    p: PathExprV,
    s: ScopeV,
    n: Seq<char>,
    env: EnvV,
    v: ValueV,
)
    requires
        p.root == PathRootV::Name(n),
        p.segments.len() == 0,
    ensures
        lowered_path(p, s.stripping(n)) is Ok,
        run(c, lowered_path(p, s.stripping(n))->Ok_0, env, v) == one(env, v),
{
    reveal(run);
}

} // verus!
