//! Whether two queries are the same tree.
use vstd::prelude::*;

use super::super::ast::texts;
use super::ast::{
    agg_item_view, agg_item_views, aggregate_view, block_view, expr_view, expr_views,
    field_set_views, item_view, item_views, join_view, join_views, let_view, let_views, object_view,
    object_views, opt_aggregate_view, opt_expr_view, opt_select_view, order_view, order_views,
    path_view, query_view, seg_view, seg_views, select_views, source_view, unnest_view,
    unnest_views, AggBlockItem, AggregateBlock, AggregateClause, AliasLet, Expr, FieldSetDef,
    FieldSetItem, JoinClause, Lit, ObjectField, OrderKey, PathExpr, PathRoot, PathSeg, Query,
    SourceClause, UnnestClause,
};

verus! {

fn same_text(a: &String, b: &String) -> (r: bool)
    ensures
        r == (a@ == b@),
{
    *a.as_str() == *b.as_str()
}

fn same_texts(a: &Vec<String>, b: &Vec<String>) -> (r: bool)
    ensures
        r == (texts(a@) == texts(b@)),
{
    assert(texts(a@).len() == a@.len());
    assert(texts(b@).len() == b@.len());
    if a.len() != b.len() {
        return false;
    }
    let mut i: usize = 0;
    while i < a.len()
        invariant
            i <= a@.len() == b@.len(),
            forall|k: int| 0 <= k < i ==> texts(a@)[k] == texts(b@)[k],
        decreases a@.len() - i,
    {
        assert(texts(a@)[i as int] == a@[i as int]@);
        assert(texts(b@)[i as int] == b@[i as int]@);
        if !same_text(&a[i], &b[i]) {
            return false;
        }
        i += 1;
    }
    assert(texts(a@) =~= texts(b@));
    true
}

fn same_lit(a: &Lit, b: &Lit) -> (r: bool)
    ensures
        r == (a@ == b@),
{
    match a {
        Lit::Number(x) => match b {
            Lit::Number(y) => same_text(x, y),
            _ => false,
        },
        Lit::Str(x) => match b {
            Lit::Str(y) => same_text(x, y),
            _ => false,
        },
        Lit::Bool(x) => match b {
            Lit::Bool(y) => *x == *y,
            _ => false,
        },
        Lit::Null => matches!(b, Lit::Null),
    }
}

fn same_root(a: &PathRoot, b: &PathRoot) -> (r: bool)
    ensures
        r == (a@ == b@),
{
    match a {
        PathRoot::Identity => matches!(b, PathRoot::Identity),
        PathRoot::Name(x) => match b {
            PathRoot::Name(y) => same_text(x, y),
            _ => false,
        },
    }
}

fn same_field_set(a: &FieldSetDef, b: &FieldSetDef) -> (r: bool)
    ensures
        r == (a@ == b@),
{
    same_text(&a.name, &b.name) && same_texts(&a.fields, &b.fields)
}

#[verifier::spinoff_prover]
#[verifier::rlimit(40)]
fn same_expr(a: &Expr, b: &Expr) -> (r: bool)
    ensures
        r == (expr_view(*a) == expr_view(*b)),
    decreases a, 1int,
{
    proof {
        reveal(expr_view);
    }
    match a {
        Expr::Compare(x1, xo, x2) => match b {
            Expr::Compare(y1, yo, y2) => *xo == *yo && same_expr(x1, y1) && same_expr(x2, y2),
            _ => false,
        },
        Expr::In(x1, x2) => match b {
            Expr::In(y1, y2) => same_expr(x1, y1) && same_expr(x2, y2),
            _ => false,
        },
        Expr::NotIn(x1, x2) => match b {
            Expr::NotIn(y1, y2) => same_expr(x1, y1) && same_expr(x2, y2),
            _ => false,
        },
        Expr::And(x1, x2) => match b {
            Expr::And(y1, y2) => same_expr(x1, y1) && same_expr(x2, y2),
            _ => false,
        },
        Expr::Or(x1, x2) => match b {
            Expr::Or(y1, y2) => same_expr(x1, y1) && same_expr(x2, y2),
            _ => false,
        },
        Expr::Not(x1) => match b {
            Expr::Not(y1) => same_expr(x1, y1),
            _ => false,
        },
        Expr::Exists(x1) => match b {
            Expr::Exists(y1) => same_expr(x1, y1),
            _ => false,
        },
        Expr::Binary { op: xo, lhs: x1, rhs: x2 } => match b {
            Expr::Binary { op: yo, lhs: y1, rhs: y2 } => *xo == *yo && same_expr(x1, y1) && same_expr(x2, y2),
            _ => false,
        },
        Expr::Neg(x1) => match b {
            Expr::Neg(y1) => same_expr(x1, y1),
            _ => false,
        },
        Expr::Path(x1) => match b {
            Expr::Path(y1) => same_path(x1, y1),
            _ => false,
        },
        Expr::Lit(x1) => match b {
            Expr::Lit(y1) => same_lit(x1, y1),
            _ => false,
        },
        Expr::Param(x1) => match b {
            Expr::Param(y1) => same_text(x1, y1),
            _ => false,
        },
        Expr::Array(x1) => match b {
            Expr::Array(y1) => same_exprs(x1, y1),
            _ => false,
        },
        Expr::FieldSetCompare { base: x1, items: x2, op: xo, rhs: x3 } => match b {
            Expr::FieldSetCompare { base: y1, items: y2, op: yo, rhs: y3 } => *xo == *yo && same_path(x1, y1) && same_items(x2, y2) && same_expr(x3, y3),
            _ => false,
        },
        Expr::Reducer { op: xo, arg: x1 } => match b {
            Expr::Reducer { op: yo, arg: y1 } => *xo == *yo && match (x1, y1) {
                (Some(x), Some(y)) => same_expr(x, y),
                (None, None) => true,
                _ => false,
            },
            _ => false,
        },
        Expr::Object(x1) => match b {
            Expr::Object(y1) => same_objects(x1, y1),
            _ => false,
        },
        Expr::TypeTest { value: x1, kind: x2, negated: x3 } => match b {
            Expr::TypeTest { value: y1, kind: y2, negated: y3 } => *x2 == *y2 && *x3 == *y3 && same_expr(x1, y1),
            _ => false,
        },
        Expr::Call(x1, x2) => match b {
            Expr::Call(y1, y2) => same_text(x1, y1) && same_exprs(x2, y2),
            _ => false,
        },
        Expr::Subquery(x1) => match b {
            Expr::Subquery(y1) => same_query(x1, y1),
            _ => false,
        },
        Expr::If { cond: x1, then_branch: x2, else_branch: x3 } => match b {
            Expr::If { cond: y1, then_branch: y2, else_branch: y3 } => same_expr(x1, y1) && same_expr(x2, y2) && same_expr(x3, y3),
            _ => false,
        },
    }
}

#[verifier::spinoff_prover]
fn same_opt_expr(a: &Option<Expr>, b: &Option<Expr>) -> (r: bool)
    ensures
        r == (opt_expr_view(*a) == opt_expr_view(*b)),
    decreases a, 2int,
{
    proof {
        reveal(opt_expr_view);
    }
    match (a, b) {
        (Some(x), Some(y)) => same_expr(x, y),
        (None, None) => true,
        _ => false,
    }
}

#[verifier::spinoff_prover]
fn same_path(a: &PathExpr, b: &PathExpr) -> (r: bool)
    ensures
        r == (path_view(*a) == path_view(*b)),
    decreases a, 1int,
{
    proof {
        reveal(path_view);
    }
    same_root(&a.root, &b.root) && same_segs(&a.segments, &b.segments)
}

#[verifier::spinoff_prover]
fn same_seg(a: &PathSeg, b: &PathSeg) -> (r: bool)
    ensures
        r == (seg_view(*a) == seg_view(*b)),
    decreases a, 1int,
{
    proof {
        reveal(seg_view);
    }
    match a {
        PathSeg::Field(x1) => match b {
            PathSeg::Field(y1) => same_text(x1, y1),
            _ => false,
        },
        PathSeg::Index(x1) => match b {
            PathSeg::Index(y1) => *x1 == *y1,
            _ => false,
        },
        PathSeg::Iterate => matches!(b, PathSeg::Iterate),
        PathSeg::StarStar => matches!(b, PathSeg::StarStar),
        PathSeg::FieldSet(x1) => match b {
            PathSeg::FieldSet(y1) => same_items(x1, y1),
            _ => false,
        },
    }
}

#[verifier::spinoff_prover]
fn same_item(a: &FieldSetItem, b: &FieldSetItem) -> (r: bool)
    ensures
        r == (item_view(*a) == item_view(*b)),
    decreases a, 1int,
{
    proof {
        reveal(item_view);
    }
    match a {
        FieldSetItem::Field(x1) => match b {
            FieldSetItem::Field(y1) => same_text(x1, y1),
            _ => false,
        },
        FieldSetItem::Override(x1, x2) => match b {
            FieldSetItem::Override(y1, y2) => same_text(x1, y1) && same_expr(x2, y2),
            _ => false,
        },
        FieldSetItem::Spread(x1) => match b {
            FieldSetItem::Spread(y1) => same_text(x1, y1),
            _ => false,
        },
    }
}

#[verifier::spinoff_prover]
fn same_object(a: &ObjectField, b: &ObjectField) -> (r: bool)
    ensures
        r == (object_view(*a) == object_view(*b)),
    decreases a, 1int,
{
    proof {
        reveal(object_view);
    }
    same_text(&a.name, &b.name) && same_expr(&a.value, &b.value) && same_opt_expr(
        &a.default,
        &b.default,
    )
}

#[verifier::spinoff_prover]
fn same_source(a: &SourceClause, b: &SourceClause) -> (r: bool)
    ensures
        r == (source_view(*a) == source_view(*b)),
    decreases a, 1int,
{
    proof {
        reveal(source_view);
    }
    same_path(&a.path, &b.path) && same_text(&a.alias, &b.alias)
}

#[verifier::spinoff_prover]
fn same_join(a: &JoinClause, b: &JoinClause) -> (r: bool)
    ensures
        r == (join_view(*a) == join_view(*b)),
    decreases a, 1int,
{
    proof {
        reveal(join_view);
    }
    a.kind == b.kind && same_path(&a.path, &b.path) && same_text(&a.alias, &b.alias) && same_expr(
        &a.on,
        &b.on,
    )
}

#[verifier::spinoff_prover]
fn same_unnest(a: &UnnestClause, b: &UnnestClause) -> (r: bool)
    ensures
        r == (unnest_view(*a) == unnest_view(*b)),
    decreases a, 1int,
{
    proof {
        reveal(unnest_view);
    }
    same_expr(&a.expr, &b.expr) && same_text(&a.alias, &b.alias)
}

#[verifier::spinoff_prover]
fn same_order(a: &OrderKey, b: &OrderKey) -> (r: bool)
    ensures
        r == (order_view(*a) == order_view(*b)),
    decreases a, 1int,
{
    proof {
        reveal(order_view);
    }
    a.desc == b.desc && same_expr(&a.expr, &b.expr)
}

#[verifier::spinoff_prover]
fn same_let(a: &AliasLet, b: &AliasLet) -> (r: bool)
    ensures
        r == (let_view(*a) == let_view(*b)),
    decreases a, 1int,
{
    proof {
        reveal(let_view);
    }
    same_text(&a.name, &b.name) && same_expr(&a.expr, &b.expr)
}

#[verifier::spinoff_prover]
fn same_agg_item(a: &AggBlockItem, b: &AggBlockItem) -> (r: bool)
    ensures
        r == (agg_item_view(*a) == agg_item_view(*b)),
    decreases a, 1int,
{
    proof {
        reveal(agg_item_view);
    }
    same_text(&a.name, &b.name) && same_expr(&a.output, &b.output) && same_opt_expr(
        &a.where_pred,
        &b.where_pred,
    ) && same_opt_expr(&a.default, &b.default)
}

#[verifier::spinoff_prover]
fn same_block(a: &AggregateBlock, b: &AggregateBlock) -> (r: bool)
    ensures
        r == (block_view(*a) == block_view(*b)),
    decreases a, 1int,
{
    proof {
        reveal(block_view);
    }
    a.rollup == b.rollup && same_agg_items(&a.reductions, &b.reductions) && same_exprs(
        &a.group_by,
        &b.group_by,
    )
}

#[verifier::spinoff_prover]
fn same_aggregate(a: &AggregateClause, b: &AggregateClause) -> (r: bool)
    ensures
        r == (aggregate_view(*a) == aggregate_view(*b)),
    decreases a, 1int,
{
    proof {
        reveal(aggregate_view);
    }
    match a {
        AggregateClause::Block(x1) => match b {
            AggregateClause::Block(y1) => same_block(x1, y1),
            _ => false,
        },
        AggregateClause::Group(x1) => match b {
            AggregateClause::Group(y1) => same_expr(&x1.key, &y1.key),
            _ => false,
        },
    }
}

#[verifier::spinoff_prover]
fn same_opt_aggregate(a: &Option<AggregateClause>, b: &Option<AggregateClause>) -> (r: bool)
    ensures
        r == (opt_aggregate_view(*a) == opt_aggregate_view(*b)),
    decreases a, 1int,
{
    proof {
        reveal(opt_aggregate_view);
    }
    match (a, b) {
        (Some(x), Some(y)) => same_aggregate(x, y),
        (None, None) => true,
        _ => false,
    }
}

#[verifier::spinoff_prover]
fn same_opt_select(a: &Option<Vec<(String, Expr)>>, b: &Option<Vec<(String, Expr)>>) -> (r: bool)
    ensures
        r == (opt_select_view(*a) == opt_select_view(*b)),
    decreases a, 1int,
{
    proof {
        reveal(opt_select_view);
    }
    match (a, b) {
        (Some(x), Some(y)) => same_selects(x, y),
        (None, None) => true,
        _ => false,
    }
}

#[verifier::spinoff_prover]
fn same_exprs(a: &Vec<Expr>, b: &Vec<Expr>) -> (r: bool)
    ensures
        r == (expr_views(a@) == expr_views(b@)),
    decreases a, 0int,
{
    proof {
        reveal(expr_views);
        assert(expr_views(a@).len() == a@.len());
        assert(expr_views(b@).len() == b@.len());
    }
    if a.len() != b.len() {
        return false;
    }
    let mut i: usize = 0;
    while i < a.len()
        invariant
            i <= a@.len() == b@.len(),
            forall|k: int| 0 <= k < i ==> expr_views(a@)[k] == expr_views(b@)[k],
        decreases a@.len() - i,
    {
        proof {
            reveal(expr_views);
            assert(decreases_to!(a => a@[i as int]));
        }
        assert(expr_views(a@)[i as int] == expr_view(a@[i as int]));
        assert(expr_views(b@)[i as int] == expr_view(b@[i as int]));
        if !(same_expr(&a[i], &b[i])) {
            return false;
        }
        i += 1;
    }
    assert(expr_views(a@) =~= expr_views(b@));
    true
}

#[verifier::spinoff_prover]
fn same_segs(a: &Vec<PathSeg>, b: &Vec<PathSeg>) -> (r: bool)
    ensures
        r == (seg_views(a@) == seg_views(b@)),
    decreases a, 0int,
{
    proof {
        reveal(seg_views);
        assert(seg_views(a@).len() == a@.len());
        assert(seg_views(b@).len() == b@.len());
    }
    if a.len() != b.len() {
        return false;
    }
    let mut i: usize = 0;
    while i < a.len()
        invariant
            i <= a@.len() == b@.len(),
            forall|k: int| 0 <= k < i ==> seg_views(a@)[k] == seg_views(b@)[k],
        decreases a@.len() - i,
    {
        proof {
            reveal(seg_views);
            assert(decreases_to!(a => a@[i as int]));
        }
        assert(seg_views(a@)[i as int] == seg_view(a@[i as int]));
        assert(seg_views(b@)[i as int] == seg_view(b@[i as int]));
        if !(same_seg(&a[i], &b[i])) {
            return false;
        }
        i += 1;
    }
    assert(seg_views(a@) =~= seg_views(b@));
    true
}

#[verifier::spinoff_prover]
fn same_items(a: &Vec<FieldSetItem>, b: &Vec<FieldSetItem>) -> (r: bool)
    ensures
        r == (item_views(a@) == item_views(b@)),
    decreases a, 0int,
{
    proof {
        reveal(item_views);
        assert(item_views(a@).len() == a@.len());
        assert(item_views(b@).len() == b@.len());
    }
    if a.len() != b.len() {
        return false;
    }
    let mut i: usize = 0;
    while i < a.len()
        invariant
            i <= a@.len() == b@.len(),
            forall|k: int| 0 <= k < i ==> item_views(a@)[k] == item_views(b@)[k],
        decreases a@.len() - i,
    {
        proof {
            reveal(item_views);
            assert(decreases_to!(a => a@[i as int]));
        }
        assert(item_views(a@)[i as int] == item_view(a@[i as int]));
        assert(item_views(b@)[i as int] == item_view(b@[i as int]));
        if !(same_item(&a[i], &b[i])) {
            return false;
        }
        i += 1;
    }
    assert(item_views(a@) =~= item_views(b@));
    true
}

#[verifier::spinoff_prover]
fn same_objects(a: &Vec<ObjectField>, b: &Vec<ObjectField>) -> (r: bool)
    ensures
        r == (object_views(a@) == object_views(b@)),
    decreases a, 0int,
{
    proof {
        reveal(object_views);
        assert(object_views(a@).len() == a@.len());
        assert(object_views(b@).len() == b@.len());
    }
    if a.len() != b.len() {
        return false;
    }
    let mut i: usize = 0;
    while i < a.len()
        invariant
            i <= a@.len() == b@.len(),
            forall|k: int| 0 <= k < i ==> object_views(a@)[k] == object_views(b@)[k],
        decreases a@.len() - i,
    {
        proof {
            reveal(object_views);
            assert(decreases_to!(a => a@[i as int]));
        }
        assert(object_views(a@)[i as int] == object_view(a@[i as int]));
        assert(object_views(b@)[i as int] == object_view(b@[i as int]));
        if !(same_object(&a[i], &b[i])) {
            return false;
        }
        i += 1;
    }
    assert(object_views(a@) =~= object_views(b@));
    true
}

#[verifier::spinoff_prover]
fn same_joins(a: &Vec<JoinClause>, b: &Vec<JoinClause>) -> (r: bool)
    ensures
        r == (join_views(a@) == join_views(b@)),
    decreases a, 0int,
{
    proof {
        reveal(join_views);
        assert(join_views(a@).len() == a@.len());
        assert(join_views(b@).len() == b@.len());
    }
    if a.len() != b.len() {
        return false;
    }
    let mut i: usize = 0;
    while i < a.len()
        invariant
            i <= a@.len() == b@.len(),
            forall|k: int| 0 <= k < i ==> join_views(a@)[k] == join_views(b@)[k],
        decreases a@.len() - i,
    {
        proof {
            reveal(join_views);
            assert(decreases_to!(a => a@[i as int]));
        }
        assert(join_views(a@)[i as int] == join_view(a@[i as int]));
        assert(join_views(b@)[i as int] == join_view(b@[i as int]));
        if !(same_join(&a[i], &b[i])) {
            return false;
        }
        i += 1;
    }
    assert(join_views(a@) =~= join_views(b@));
    true
}

#[verifier::spinoff_prover]
fn same_unnests(a: &Vec<UnnestClause>, b: &Vec<UnnestClause>) -> (r: bool)
    ensures
        r == (unnest_views(a@) == unnest_views(b@)),
    decreases a, 0int,
{
    proof {
        reveal(unnest_views);
        assert(unnest_views(a@).len() == a@.len());
        assert(unnest_views(b@).len() == b@.len());
    }
    if a.len() != b.len() {
        return false;
    }
    let mut i: usize = 0;
    while i < a.len()
        invariant
            i <= a@.len() == b@.len(),
            forall|k: int| 0 <= k < i ==> unnest_views(a@)[k] == unnest_views(b@)[k],
        decreases a@.len() - i,
    {
        proof {
            reveal(unnest_views);
            assert(decreases_to!(a => a@[i as int]));
        }
        assert(unnest_views(a@)[i as int] == unnest_view(a@[i as int]));
        assert(unnest_views(b@)[i as int] == unnest_view(b@[i as int]));
        if !(same_unnest(&a[i], &b[i])) {
            return false;
        }
        i += 1;
    }
    assert(unnest_views(a@) =~= unnest_views(b@));
    true
}

#[verifier::spinoff_prover]
fn same_orders(a: &Vec<OrderKey>, b: &Vec<OrderKey>) -> (r: bool)
    ensures
        r == (order_views(a@) == order_views(b@)),
    decreases a, 0int,
{
    proof {
        reveal(order_views);
        assert(order_views(a@).len() == a@.len());
        assert(order_views(b@).len() == b@.len());
    }
    if a.len() != b.len() {
        return false;
    }
    let mut i: usize = 0;
    while i < a.len()
        invariant
            i <= a@.len() == b@.len(),
            forall|k: int| 0 <= k < i ==> order_views(a@)[k] == order_views(b@)[k],
        decreases a@.len() - i,
    {
        proof {
            reveal(order_views);
            assert(decreases_to!(a => a@[i as int]));
        }
        assert(order_views(a@)[i as int] == order_view(a@[i as int]));
        assert(order_views(b@)[i as int] == order_view(b@[i as int]));
        if !(same_order(&a[i], &b[i])) {
            return false;
        }
        i += 1;
    }
    assert(order_views(a@) =~= order_views(b@));
    true
}

#[verifier::spinoff_prover]
fn same_lets(a: &Vec<AliasLet>, b: &Vec<AliasLet>) -> (r: bool)
    ensures
        r == (let_views(a@) == let_views(b@)),
    decreases a, 0int,
{
    proof {
        reveal(let_views);
        assert(let_views(a@).len() == a@.len());
        assert(let_views(b@).len() == b@.len());
    }
    if a.len() != b.len() {
        return false;
    }
    let mut i: usize = 0;
    while i < a.len()
        invariant
            i <= a@.len() == b@.len(),
            forall|k: int| 0 <= k < i ==> let_views(a@)[k] == let_views(b@)[k],
        decreases a@.len() - i,
    {
        proof {
            reveal(let_views);
            assert(decreases_to!(a => a@[i as int]));
        }
        assert(let_views(a@)[i as int] == let_view(a@[i as int]));
        assert(let_views(b@)[i as int] == let_view(b@[i as int]));
        if !(same_let(&a[i], &b[i])) {
            return false;
        }
        i += 1;
    }
    assert(let_views(a@) =~= let_views(b@));
    true
}

#[verifier::spinoff_prover]
fn same_agg_items(a: &Vec<AggBlockItem>, b: &Vec<AggBlockItem>) -> (r: bool)
    ensures
        r == (agg_item_views(a@) == agg_item_views(b@)),
    decreases a, 0int,
{
    proof {
        reveal(agg_item_views);
        assert(agg_item_views(a@).len() == a@.len());
        assert(agg_item_views(b@).len() == b@.len());
    }
    if a.len() != b.len() {
        return false;
    }
    let mut i: usize = 0;
    while i < a.len()
        invariant
            i <= a@.len() == b@.len(),
            forall|k: int| 0 <= k < i ==> agg_item_views(a@)[k] == agg_item_views(b@)[k],
        decreases a@.len() - i,
    {
        proof {
            reveal(agg_item_views);
            assert(decreases_to!(a => a@[i as int]));
        }
        assert(agg_item_views(a@)[i as int] == agg_item_view(a@[i as int]));
        assert(agg_item_views(b@)[i as int] == agg_item_view(b@[i as int]));
        if !(same_agg_item(&a[i], &b[i])) {
            return false;
        }
        i += 1;
    }
    assert(agg_item_views(a@) =~= agg_item_views(b@));
    true
}

#[verifier::spinoff_prover]
fn same_selects(a: &Vec<(String, Expr)>, b: &Vec<(String, Expr)>) -> (r: bool)
    ensures
        r == (select_views(a@) == select_views(b@)),
    decreases a, 0int,
{
    proof {
        reveal(select_views);
        assert(select_views(a@).len() == a@.len());
        assert(select_views(b@).len() == b@.len());
    }
    if a.len() != b.len() {
        return false;
    }
    let mut i: usize = 0;
    while i < a.len()
        invariant
            i <= a@.len() == b@.len(),
            forall|k: int| 0 <= k < i ==> select_views(a@)[k] == select_views(b@)[k],
        decreases a@.len() - i,
    {
        proof {
            reveal(select_views);
            assert(decreases_to!(a => a@[i as int]));
        }
        assert(select_views(a@)[i as int] == (a@[i as int].0@, expr_view(a@[i as int].1)));
        assert(select_views(b@)[i as int] == (b@[i as int].0@, expr_view(b@[i as int].1)));
        if !(same_text(&a[i].0, &b[i].0) && same_expr(&a[i].1, &b[i].1)) {
            return false;
        }
        i += 1;
    }
    assert(select_views(a@) =~= select_views(b@));
    true
}

#[verifier::spinoff_prover]
fn same_field_sets(a: &Vec<FieldSetDef>, b: &Vec<FieldSetDef>) -> (r: bool)
    ensures
        r == (field_set_views(a@) == field_set_views(b@)),
    decreases a, 0int,
{
    proof {
        reveal(field_set_views);
        assert(field_set_views(a@).len() == a@.len());
        assert(field_set_views(b@).len() == b@.len());
    }
    if a.len() != b.len() {
        return false;
    }
    let mut i: usize = 0;
    while i < a.len()
        invariant
            i <= a@.len() == b@.len(),
            forall|k: int| 0 <= k < i ==> field_set_views(a@)[k] == field_set_views(b@)[k],
        decreases a@.len() - i,
    {
        proof {
            reveal(field_set_views);
            assert(decreases_to!(a => a@[i as int]));
        }
        assert(field_set_views(a@)[i as int] == a@[i as int]@);
        assert(field_set_views(b@)[i as int] == b@[i as int]@);
        if !(same_field_set(&a[i], &b[i])) {
            return false;
        }
        i += 1;
    }
    assert(field_set_views(a@) =~= field_set_views(b@));
    true
}

/// Whether two queries are the same.
#[verifier::spinoff_prover]
pub fn same_query(a: &Query, b: &Query) -> (r: bool)
    ensures
        r == (query_view(*a) == query_view(*b)),
    decreases a, 1int,
{
    proof {
        reveal(query_view);
    }
    a.distinct == b.distinct && a.limit == b.limit && same_field_sets(&a.field_sets, &b.field_sets)
        && same_source(&a.source, &b.source) && same_joins(&a.joins, &b.joins) && same_unnests(
        &a.unnests,
        &b.unnests,
    ) && same_opt_expr(&a.where_clause, &b.where_clause) && same_lets(&a.alias_lets, &b.alias_lets)
        && same_opt_aggregate(&a.aggregate, &b.aggregate) && same_opt_expr(&a.having, &b.having)
        && same_opt_select(&a.project, &b.project) && same_orders(&a.order_by, &b.order_by)
}

} // verus!
