//! The tree of a surface query, as the parser builds it.
use vstd::prelude::*;

use super::super::ast::{texts, CompareOp};

pub use super::super::ast::{BinaryOp, JsonTypeKind};

verus! {

/// A query. Its clauses stand in pipeline order.
pub struct Query {
    /// `fields NAME = { .. }`: named field sets, resolved at compile time.
    pub field_sets: Vec<FieldSetDef>,
    /// `from PATH as ALIAS`: the rows, one per child of the path.
    pub source: SourceClause,
    pub joins: Vec<JoinClause>,
    /// `unnest EXPR as ALIAS`: one row per element of an array.
    pub unnests: Vec<UnnestClause>,
    pub where_clause: Option<Predicate>,
    pub distinct: bool,
    /// `let NAME = EXPR`: names for expressions over reductions.
    pub alias_lets: Vec<AliasLet>,
    pub aggregate: Option<AggregateClause>,
    /// A filter on the rows that an aggregate block gives.
    pub having: Option<Predicate>,
    pub project: Option<Vec<(String, Expr)>>,
    pub order_by: Vec<OrderKey>,
    pub limit: Option<u64>,
}

pub struct QueryV {
    pub field_sets: Seq<FieldSetDefV>,
    pub source: SourceClauseV,
    pub joins: Seq<JoinClauseV>,
    pub unnests: Seq<UnnestClauseV>,
    pub where_clause: Option<ExprV>,
    pub distinct: bool,
    pub alias_lets: Seq<AliasLetV>,
    pub aggregate: Option<AggregateClauseV>,
    pub having: Option<ExprV>,
    pub project: Option<Seq<(Seq<char>, ExprV)>>,
    pub order_by: Seq<OrderKeyV>,
    pub limit: Option<u64>,
}

pub struct SourceClause {
    pub path: PathExpr,
    pub alias: String,
}

pub struct SourceClauseV {
    pub path: PathExprV,
    pub alias: Seq<char>,
}

/// An inner join drops rows without a match; a left join keeps them, with a
/// null alias.
#[derive(Clone, Copy, Debug, PartialEq, Eq, Structural)]
pub enum JoinKind {
    Inner,
    Left,
}

/// `[inner|left] join PATH as ALIAS on LEFT == RIGHT`.
pub struct JoinClause {
    pub path: PathExpr,
    pub alias: String,
    pub on: Predicate,
    pub kind: JoinKind,
}

pub struct JoinClauseV {
    pub path: PathExprV,
    pub alias: Seq<char>,
    pub on: ExprV,
    pub kind: JoinKind,
}

pub struct UnnestClause {
    pub expr: Expr,
    pub alias: String,
}

pub struct UnnestClauseV {
    pub expr: ExprV,
    pub alias: Seq<char>,
}

pub struct OrderKey {
    pub expr: Expr,
    pub desc: bool,
}

pub struct OrderKeyV {
    pub expr: ExprV,
    pub desc: bool,
}

pub struct FieldSetDef {
    pub name: String,
    pub fields: Vec<String>,
}

pub struct FieldSetDefV {
    pub name: Seq<char>,
    pub fields: Seq<Seq<char>>,
}

pub struct AliasLet {
    pub name: String,
    pub expr: Expr,
}

pub struct AliasLetV {
    pub name: Seq<char>,
    pub expr: ExprV,
}

pub enum AggregateClause {
    /// `aggregate { .. } [by KEY]`.
    Block(AggregateBlock),
    /// `collect by KEY`: the members of each group, without a reduction.
    Group(GroupClause),
}

pub enum AggregateClauseV {
    Block(AggregateBlockV),
    Group(GroupClauseV),
}

pub struct GroupClause {
    pub key: Expr,
}

pub struct GroupClauseV {
    pub key: ExprV,
}

pub struct AggregateBlock {
    pub reductions: Vec<AggBlockItem>,
    /// The keys after `by`; empty where there is none.
    pub group_by: Vec<Expr>,
    /// `by rollup(..)`: one grouping for each prefix of the keys.
    pub rollup: bool,
}

pub struct AggregateBlockV {
    pub reductions: Seq<AggBlockItemV>,
    pub group_by: Seq<ExprV>,
    pub rollup: bool,
}

/// `NAME: OUTPUT [where PRED] [?? DEFAULT]`.
pub struct AggBlockItem {
    pub name: String,
    pub output: Expr,
    pub where_pred: Option<Expr>,
    pub default: Option<Expr>,
}

pub struct AggBlockItemV {
    pub name: Seq<char>,
    pub output: ExprV,
    pub where_pred: Option<ExprV>,
    pub default: Option<ExprV>,
}

#[derive(Copy, Clone, Debug, PartialEq, Eq, Structural)]
pub enum AggOp {
    Sum,
    Count,
    Avg,
    Min,
    Max,
}

/// A condition.
pub type Predicate = Expr;

pub struct PathExpr {
    pub root: PathRoot,
    pub segments: Vec<PathSeg>,
}

pub struct PathExprV {
    pub root: PathRootV,
    pub segments: Seq<PathSegV>,
}

pub enum PathRoot {
    /// A leading `.`: the document root in a source path, else the row.
    Identity,
    /// An alias.
    Name(String),
}

pub enum PathRootV {
    Identity,
    Name(Seq<char>),
}

pub enum PathSeg {
    Field(String),
    Index(i64),
    /// `[]`: each child.
    Iterate,
    /// `.**`: the node and all its descendants.
    StarStar,
    /// `.{a, b}`: several fields, on the left of a comparison.
    FieldSet(Vec<FieldSetItem>),
}

pub enum PathSegV {
    Field(Seq<char>),
    Index(i64),
    Iterate,
    StarStar,
    FieldSet(Seq<FieldSetItemV>),
}

pub enum FieldSetItem {
    Field(String),
    /// A field with its own right side.
    Override(String, Expr),
    /// `...NAME`: the fields of a named set.
    Spread(String),
}

pub enum FieldSetItemV {
    Field(Seq<char>),
    Override(Seq<char>, ExprV),
    Spread(Seq<char>),
}

pub enum Expr {
    Path(PathExpr),
    Lit(Lit),
    /// `$name`.
    Param(String),
    Array(Vec<Expr>),
    /// `BASE.{f1, f2} OP RHS`.
    FieldSetCompare { base: PathExpr, items: Vec<FieldSetItem>, op: CompareOp, rhs: Box<Expr> },
    Compare(Box<Expr>, CompareOp, Box<Expr>),
    In(Box<Expr>, Box<Expr>),
    NotIn(Box<Expr>, Box<Expr>),
    And(Box<Expr>, Box<Expr>),
    Or(Box<Expr>, Box<Expr>),
    Not(Box<Expr>),
    Exists(Box<Expr>),
    Binary { op: BinaryOp, lhs: Box<Expr>, rhs: Box<Expr> },
    Neg(Box<Expr>),
    /// A call of a reducer, inside an aggregate block or an alias.
    Reducer { op: AggOp, arg: Option<Box<Expr>> },
    Object(Vec<ObjectField>),
    TypeTest { value: Box<Expr>, kind: JsonTypeKind, negated: bool },
    /// A call of a function whose arguments are all evaluated.
    Call(String, Vec<Expr>),
    Subquery(Box<Query>),
    If { cond: Box<Expr>, then_branch: Box<Expr>, else_branch: Box<Expr> },
}

pub enum ExprV {
    Path(PathExprV),
    Lit(LitV),
    Param(Seq<char>),
    Array(Seq<ExprV>),
    FieldSetCompare {
        base: PathExprV,
        items: Seq<FieldSetItemV>,
        op: CompareOp,
        rhs: Box<ExprV>,
    },
    Compare(Box<ExprV>, CompareOp, Box<ExprV>),
    In(Box<ExprV>, Box<ExprV>),
    NotIn(Box<ExprV>, Box<ExprV>),
    And(Box<ExprV>, Box<ExprV>),
    Or(Box<ExprV>, Box<ExprV>),
    Not(Box<ExprV>),
    Exists(Box<ExprV>),
    Binary { op: BinaryOp, lhs: Box<ExprV>, rhs: Box<ExprV> },
    Neg(Box<ExprV>),
    Reducer { op: AggOp, arg: Option<Box<ExprV>> },
    Object(Seq<ObjectFieldV>),
    TypeTest { value: Box<ExprV>, kind: JsonTypeKind, negated: bool },
    Call(Seq<char>, Seq<ExprV>),
    Subquery(Box<QueryV>),
    If { cond: Box<ExprV>, then_branch: Box<ExprV>, else_branch: Box<ExprV> },
}

/// `NAME: VALUE [?? DEFAULT]`.
pub struct ObjectField {
    pub name: String,
    pub value: Expr,
    pub default: Option<Expr>,
}

pub struct ObjectFieldV {
    pub name: Seq<char>,
    pub value: ExprV,
    pub default: Option<ExprV>,
}

pub enum Lit {
    /// A number, in plain digits.
    Number(String),
    Str(String),
    Bool(bool),
    Null,
}

pub enum LitV {
    Number(Seq<char>),
    Str(Seq<char>),
    Bool(bool),
    Null,
}

impl View for Lit {
    type V = LitV;

    open spec fn view(&self) -> LitV {
        match self {
            Lit::Number(s) => LitV::Number(s@),
            Lit::Str(s) => LitV::Str(s@),
            Lit::Bool(b) => LitV::Bool(*b),
            Lit::Null => LitV::Null,
        }
    }
}

impl View for PathRoot {
    type V = PathRootV;

    open spec fn view(&self) -> PathRootV {
        match self {
            PathRoot::Identity => PathRootV::Identity,
            PathRoot::Name(n) => PathRootV::Name(n@),
        }
    }
}

impl View for FieldSetDef {
    type V = FieldSetDefV;

    open spec fn view(&self) -> FieldSetDefV {
        FieldSetDefV { name: self.name@, fields: texts(self.fields@) }
    }
}

#[verifier::opaque]
pub open spec fn expr_view(e: Expr) -> ExprV
    decreases e,
{
    match e {
        Expr::Path(p) => ExprV::Path(path_view(p)),
        Expr::Lit(l) => ExprV::Lit(l@),
        Expr::Param(n) => ExprV::Param(n@),
        Expr::Array(items) => ExprV::Array(expr_views(items@)),
        Expr::FieldSetCompare { base, items, op, rhs } => ExprV::FieldSetCompare {
            base: path_view(base),
            items: item_views(items@),
            op,
            rhs: Box::new(expr_view(*rhs)),
        },
        Expr::Compare(l, op, r) => ExprV::Compare(
            Box::new(expr_view(*l)),
            op,
            Box::new(expr_view(*r)),
        ),
        Expr::In(l, r) => ExprV::In(Box::new(expr_view(*l)), Box::new(expr_view(*r))),
        Expr::NotIn(l, r) => ExprV::NotIn(Box::new(expr_view(*l)), Box::new(expr_view(*r))),
        Expr::And(l, r) => ExprV::And(Box::new(expr_view(*l)), Box::new(expr_view(*r))),
        Expr::Or(l, r) => ExprV::Or(Box::new(expr_view(*l)), Box::new(expr_view(*r))),
        Expr::Not(x) => ExprV::Not(Box::new(expr_view(*x))),
        Expr::Exists(x) => ExprV::Exists(Box::new(expr_view(*x))),
        Expr::Binary { op, lhs, rhs } => ExprV::Binary {
            op,
            lhs: Box::new(expr_view(*lhs)),
            rhs: Box::new(expr_view(*rhs)),
        },
        Expr::Neg(x) => ExprV::Neg(Box::new(expr_view(*x))),
        Expr::Reducer { op, arg } => ExprV::Reducer {
            op,
            arg: match arg {
                Some(x) => Some(Box::new(expr_view(*x))),
                None => None,
            },
        },
        Expr::Object(fields) => ExprV::Object(object_views(fields@)),
        Expr::TypeTest { value, kind, negated } => ExprV::TypeTest {
            value: Box::new(expr_view(*value)),
            kind,
            negated,
        },
        Expr::Call(n, args) => ExprV::Call(n@, expr_views(args@)),
        Expr::Subquery(q) => ExprV::Subquery(Box::new(query_view(*q))),
        Expr::If { cond, then_branch, else_branch } => ExprV::If {
            cond: Box::new(expr_view(*cond)),
            then_branch: Box::new(expr_view(*then_branch)),
            else_branch: Box::new(expr_view(*else_branch)),
        },
    }
}

#[verifier::opaque]
pub open spec fn opt_expr_view(o: Option<Expr>) -> Option<ExprV>
    decreases o,
{
    match o {
        Some(e) => Some(expr_view(e)),
        None => None,
    }
}

#[verifier::opaque]
pub open spec fn path_view(p: PathExpr) -> PathExprV
    decreases p,
{
    PathExprV { root: p.root@, segments: seg_views(p.segments@) }
}

#[verifier::opaque]
pub open spec fn seg_view(s: PathSeg) -> PathSegV
    decreases s,
{
    match s {
        PathSeg::Field(n) => PathSegV::Field(n@),
        PathSeg::Index(i) => PathSegV::Index(i),
        PathSeg::Iterate => PathSegV::Iterate,
        PathSeg::StarStar => PathSegV::StarStar,
        PathSeg::FieldSet(items) => PathSegV::FieldSet(item_views(items@)),
    }
}

#[verifier::opaque]
pub open spec fn item_view(x: FieldSetItem) -> FieldSetItemV
    decreases x,
{
    match x {
        FieldSetItem::Field(n) => FieldSetItemV::Field(n@),
        FieldSetItem::Override(n, e) => FieldSetItemV::Override(n@, expr_view(e)),
        FieldSetItem::Spread(n) => FieldSetItemV::Spread(n@),
    }
}

#[verifier::opaque]
pub open spec fn object_view(f: ObjectField) -> ObjectFieldV
    decreases f,
{
    ObjectFieldV { name: f.name@, value: expr_view(f.value), default: opt_expr_view(f.default) }
}

#[verifier::opaque]
pub open spec fn source_view(s: SourceClause) -> SourceClauseV
    decreases s,
{
    SourceClauseV { path: path_view(s.path), alias: s.alias@ }
}

#[verifier::opaque]
pub open spec fn join_view(j: JoinClause) -> JoinClauseV
    decreases j,
{
    JoinClauseV { path: path_view(j.path), alias: j.alias@, on: expr_view(j.on), kind: j.kind }
}

#[verifier::opaque]
pub open spec fn unnest_view(u: UnnestClause) -> UnnestClauseV
    decreases u,
{
    UnnestClauseV { expr: expr_view(u.expr), alias: u.alias@ }
}

#[verifier::opaque]
pub open spec fn order_view(k: OrderKey) -> OrderKeyV
    decreases k,
{
    OrderKeyV { expr: expr_view(k.expr), desc: k.desc }
}

#[verifier::opaque]
pub open spec fn let_view(l: AliasLet) -> AliasLetV
    decreases l,
{
    AliasLetV { name: l.name@, expr: expr_view(l.expr) }
}

#[verifier::opaque]
pub open spec fn agg_item_view(x: AggBlockItem) -> AggBlockItemV
    decreases x,
{
    AggBlockItemV {
        name: x.name@,
        output: expr_view(x.output),
        where_pred: opt_expr_view(x.where_pred),
        default: opt_expr_view(x.default),
    }
}

#[verifier::opaque]
pub open spec fn block_view(b: AggregateBlock) -> AggregateBlockV
    decreases b,
{
    AggregateBlockV {
        reductions: agg_item_views(b.reductions@),
        group_by: expr_views(b.group_by@),
        rollup: b.rollup,
    }
}

#[verifier::opaque]
pub open spec fn aggregate_view(a: AggregateClause) -> AggregateClauseV
    decreases a,
{
    match a {
        AggregateClause::Block(b) => AggregateClauseV::Block(block_view(b)),
        AggregateClause::Group(g) => AggregateClauseV::Group(
            GroupClauseV { key: expr_view(g.key) },
        ),
    }
}

#[verifier::opaque]
pub open spec fn opt_aggregate_view(o: Option<AggregateClause>) -> Option<AggregateClauseV>
    decreases o,
{
    match o {
        Some(a) => Some(aggregate_view(a)),
        None => None,
    }
}

#[verifier::opaque]
pub open spec fn opt_select_view(o: Option<Vec<(String, Expr)>>) -> Option<
    Seq<(Seq<char>, ExprV)>,
>
    decreases o,
{
    match o {
        Some(v) => Some(select_views(v@)),
        None => None,
    }
}

#[verifier::opaque]
pub open spec fn query_view(q: Query) -> QueryV
    decreases q,
{
    QueryV {
        field_sets: field_set_views(q.field_sets@),
        source: source_view(q.source),
        joins: join_views(q.joins@),
        unnests: unnest_views(q.unnests@),
        where_clause: opt_expr_view(q.where_clause),
        distinct: q.distinct,
        alias_lets: let_views(q.alias_lets@),
        aggregate: opt_aggregate_view(q.aggregate),
        having: opt_expr_view(q.having),
        project: opt_select_view(q.project),
        order_by: order_views(q.order_by@),
        limit: q.limit,
    }
}

#[verifier::opaque]
pub open spec fn expr_views(v: Seq<Expr>) -> Seq<ExprV>
    decreases v,
{
    Seq::new(
        v.len(),
        |i: int|
            if 0 <= i < v.len() {
                expr_view(v[i])
            } else {
                arbitrary()
            },
    )
}

#[verifier::opaque]
pub open spec fn seg_views(v: Seq<PathSeg>) -> Seq<PathSegV>
    decreases v,
{
    Seq::new(
        v.len(),
        |i: int|
            if 0 <= i < v.len() {
                seg_view(v[i])
            } else {
                arbitrary()
            },
    )
}

#[verifier::opaque]
pub open spec fn item_views(v: Seq<FieldSetItem>) -> Seq<FieldSetItemV>
    decreases v,
{
    Seq::new(
        v.len(),
        |i: int|
            if 0 <= i < v.len() {
                item_view(v[i])
            } else {
                arbitrary()
            },
    )
}

#[verifier::opaque]
pub open spec fn object_views(v: Seq<ObjectField>) -> Seq<ObjectFieldV>
    decreases v,
{
    Seq::new(
        v.len(),
        |i: int|
            if 0 <= i < v.len() {
                object_view(v[i])
            } else {
                arbitrary()
            },
    )
}

#[verifier::opaque]
pub open spec fn join_views(v: Seq<JoinClause>) -> Seq<JoinClauseV>
    decreases v,
{
    Seq::new(
        v.len(),
        |i: int|
            if 0 <= i < v.len() {
                join_view(v[i])
            } else {
                arbitrary()
            },
    )
}

#[verifier::opaque]
pub open spec fn unnest_views(v: Seq<UnnestClause>) -> Seq<UnnestClauseV>
    decreases v,
{
    Seq::new(
        v.len(),
        |i: int|
            if 0 <= i < v.len() {
                unnest_view(v[i])
            } else {
                arbitrary()
            },
    )
}

#[verifier::opaque]
pub open spec fn order_views(v: Seq<OrderKey>) -> Seq<OrderKeyV>
    decreases v,
{
    Seq::new(
        v.len(),
        |i: int|
            if 0 <= i < v.len() {
                order_view(v[i])
            } else {
                arbitrary()
            },
    )
}

#[verifier::opaque]
pub open spec fn let_views(v: Seq<AliasLet>) -> Seq<AliasLetV>
    decreases v,
{
    Seq::new(
        v.len(),
        |i: int|
            if 0 <= i < v.len() {
                let_view(v[i])
            } else {
                arbitrary()
            },
    )
}

#[verifier::opaque]
pub open spec fn agg_item_views(v: Seq<AggBlockItem>) -> Seq<AggBlockItemV>
    decreases v,
{
    Seq::new(
        v.len(),
        |i: int|
            if 0 <= i < v.len() {
                agg_item_view(v[i])
            } else {
                arbitrary()
            },
    )
}

#[verifier::opaque]
pub open spec fn select_views(v: Seq<(String, Expr)>) -> Seq<(Seq<char>, ExprV)>
    decreases v,
{
    Seq::new(
        v.len(),
        |i: int|
            if 0 <= i < v.len() {
                (v[i].0@, expr_view(v[i].1))
            } else {
                arbitrary()
            },
    )
}

#[verifier::opaque]
pub open spec fn field_set_views(v: Seq<FieldSetDef>) -> Seq<FieldSetDefV> {
    Seq::new(v.len(), |i: int| v[i]@)
}

impl View for Expr {
    type V = ExprV;

    open spec fn view(&self) -> ExprV {
        expr_view(*self)
    }
}

impl View for PathExpr {
    type V = PathExprV;

    open spec fn view(&self) -> PathExprV {
        path_view(*self)
    }
}

impl View for PathSeg {
    type V = PathSegV;

    open spec fn view(&self) -> PathSegV {
        seg_view(*self)
    }
}

impl View for FieldSetItem {
    type V = FieldSetItemV;

    open spec fn view(&self) -> FieldSetItemV {
        item_view(*self)
    }
}

impl View for ObjectField {
    type V = ObjectFieldV;

    open spec fn view(&self) -> ObjectFieldV {
        object_view(*self)
    }
}

impl View for SourceClause {
    type V = SourceClauseV;

    open spec fn view(&self) -> SourceClauseV {
        source_view(*self)
    }
}

impl View for JoinClause {
    type V = JoinClauseV;

    open spec fn view(&self) -> JoinClauseV {
        join_view(*self)
    }
}

impl View for UnnestClause {
    type V = UnnestClauseV;

    open spec fn view(&self) -> UnnestClauseV {
        unnest_view(*self)
    }
}

impl View for OrderKey {
    type V = OrderKeyV;

    open spec fn view(&self) -> OrderKeyV {
        order_view(*self)
    }
}

impl View for AliasLet {
    type V = AliasLetV;

    open spec fn view(&self) -> AliasLetV {
        let_view(*self)
    }
}

impl View for AggBlockItem {
    type V = AggBlockItemV;

    open spec fn view(&self) -> AggBlockItemV {
        agg_item_view(*self)
    }
}

impl View for AggregateBlock {
    type V = AggregateBlockV;

    open spec fn view(&self) -> AggregateBlockV {
        block_view(*self)
    }
}

impl View for AggregateClause {
    type V = AggregateClauseV;

    open spec fn view(&self) -> AggregateClauseV {
        aggregate_view(*self)
    }
}

impl View for Query {
    type V = QueryV;

    open spec fn view(&self) -> QueryV {
        query_view(*self)
    }
}

impl Expr {
    pub fn path(p: PathExpr) -> (x: Self)
        ensures
            x@ == (ExprV::Path(p@)),
    {
        proof {
            reveal(expr_view);
            reveal(path_view);
        }
        Expr::Path(p)
    }

    pub fn lit(l: Lit) -> (x: Self)
        ensures
            x@ == (ExprV::Lit(l@)),
    {
        proof {
            reveal(expr_view);
        }
        Expr::Lit(l)
    }

    pub fn param(n: String) -> (x: Self)
        ensures
            x@ == (ExprV::Param(n@)),
    {
        proof {
            reveal(expr_view);
        }
        Expr::Param(n)
    }

    pub fn array(v: Vec<Expr>) -> (x: Self)
        ensures
            x@ == (ExprV::Array(expr_views(v@))),
    {
        proof {
            reveal(expr_view);
            reveal(expr_views);
        }
        Expr::Array(v)
    }

    pub fn field_set_compare(base: PathExpr, items: Vec<FieldSetItem>, op: CompareOp, r: Expr) -> (x: Self)
        ensures
            x@ == (ExprV::FieldSetCompare { base: base@, items: item_views(items@), op, rhs: Box::new(r@) }),
    {
        proof {
            reveal(expr_view);
            reveal(item_views);
            reveal(path_view);
        }
        Expr::FieldSetCompare { base, items, op, rhs: Box::new(r) }
    }

    pub fn compare(l: Expr, op: CompareOp, r: Expr) -> (x: Self)
        ensures
            x@ == (ExprV::Compare(Box::new(l@), op, Box::new(r@))),
    {
        proof {
            reveal(expr_view);
        }
        Expr::Compare(Box::new(l), op, Box::new(r))
    }

    pub fn is_in(l: Expr, r: Expr) -> (x: Self)
        ensures
            x@ == (ExprV::In(Box::new(l@), Box::new(r@))),
    {
        proof {
            reveal(expr_view);
        }
        Expr::In(Box::new(l), Box::new(r))
    }

    pub fn not_in(l: Expr, r: Expr) -> (x: Self)
        ensures
            x@ == (ExprV::NotIn(Box::new(l@), Box::new(r@))),
    {
        proof {
            reveal(expr_view);
        }
        Expr::NotIn(Box::new(l), Box::new(r))
    }

    pub fn and(l: Expr, r: Expr) -> (x: Self)
        ensures
            x@ == (ExprV::And(Box::new(l@), Box::new(r@))),
    {
        proof {
            reveal(expr_view);
        }
        Expr::And(Box::new(l), Box::new(r))
    }

    pub fn or(l: Expr, r: Expr) -> (x: Self)
        ensures
            x@ == (ExprV::Or(Box::new(l@), Box::new(r@))),
    {
        proof {
            reveal(expr_view);
        }
        Expr::Or(Box::new(l), Box::new(r))
    }

    pub fn not(e: Expr) -> (x: Self)
        ensures
            x@ == (ExprV::Not(Box::new(e@))),
    {
        proof {
            reveal(expr_view);
        }
        Expr::Not(Box::new(e))
    }

    pub fn exists_of(e: Expr) -> (x: Self)
        ensures
            x@ == (ExprV::Exists(Box::new(e@))),
    {
        proof {
            reveal(expr_view);
        }
        Expr::Exists(Box::new(e))
    }

    pub fn neg(e: Expr) -> (x: Self)
        ensures
            x@ == (ExprV::Neg(Box::new(e@))),
    {
        proof {
            reveal(expr_view);
        }
        Expr::Neg(Box::new(e))
    }

    pub fn binary(op: BinaryOp, l: Expr, r: Expr) -> (x: Self)
        ensures
            x@ == (ExprV::Binary { op, lhs: Box::new(l@), rhs: Box::new(r@) }),
    {
        proof {
            reveal(expr_view);
        }
        Expr::Binary { op, lhs: Box::new(l), rhs: Box::new(r) }
    }

    pub fn count_all(op: AggOp) -> (x: Self)
        ensures
            x@ == (ExprV::Reducer { op, arg: None }),
    {
        proof {
            reveal(expr_view);
        }
        Expr::Reducer { op, arg: None }
    }

    pub fn reducer(op: AggOp, e: Expr) -> (x: Self)
        ensures
            x@ == (ExprV::Reducer { op, arg: Some(Box::new(e@)) }),
    {
        proof {
            reveal(expr_view);
        }
        Expr::Reducer { op, arg: Some(Box::new(e)) }
    }

    pub fn object(v: Vec<ObjectField>) -> (x: Self)
        ensures
            x@ == (ExprV::Object(object_views(v@))),
    {
        proof {
            reveal(expr_view);
            reveal(object_views);
        }
        Expr::Object(v)
    }

    pub fn type_test(e: Expr, kind: JsonTypeKind, negated: bool) -> (x: Self)
        ensures
            x@ == (ExprV::TypeTest { value: Box::new(e@), kind, negated }),
    {
        proof {
            reveal(expr_view);
        }
        Expr::TypeTest { value: Box::new(e), kind, negated }
    }

    pub fn call(n: String, v: Vec<Expr>) -> (x: Self)
        ensures
            x@ == (ExprV::Call(n@, expr_views(v@))),
    {
        proof {
            reveal(expr_view);
            reveal(expr_views);
        }
        Expr::Call(n, v)
    }

    pub fn subquery(q: Query) -> (x: Self)
        ensures
            x@ == (ExprV::Subquery(Box::new(q@))),
    {
        proof {
            reveal(expr_view);
            reveal(query_view);
        }
        Expr::Subquery(Box::new(q))
    }

    pub fn if_of(c: Expr, a: Expr, b: Expr) -> (x: Self)
        ensures
            x@ == (ExprV::If { cond: Box::new(c@), then_branch: Box::new(a@), else_branch: Box::new(b@) }),
    {
        proof {
            reveal(expr_view);
        }
        Expr::If { cond: Box::new(c), then_branch: Box::new(a), else_branch: Box::new(b) }
    }
}

impl PathExpr {
    pub fn new(root: PathRoot, segments: Vec<PathSeg>) -> (x: Self)
        ensures
            x@ == (PathExprV { root: root@, segments: seg_views(segments@) }),
    {
        proof {
            reveal(path_view);
            reveal(seg_views);
        }
        PathExpr { root, segments }
    }
}

impl PathSeg {
    pub fn field(n: String) -> (x: Self)
        ensures
            x@ == (PathSegV::Field(n@)),
    {
        proof {
            reveal(seg_view);
        }
        PathSeg::Field(n)
    }

    pub fn index(i: i64) -> (x: Self)
        ensures
            x@ == (PathSegV::Index(i)),
    {
        proof {
            reveal(seg_view);
        }
        PathSeg::Index(i)
    }

    pub fn iterate() -> (x: Self)
        ensures
            x@ == (PathSegV::Iterate),
    {
        proof {
            reveal(seg_view);
        }
        PathSeg::Iterate
    }

    pub fn star_star() -> (x: Self)
        ensures
            x@ == (PathSegV::StarStar),
    {
        proof {
            reveal(seg_view);
        }
        PathSeg::StarStar
    }

    pub fn field_set(v: Vec<FieldSetItem>) -> (x: Self)
        ensures
            x@ == (PathSegV::FieldSet(item_views(v@))),
    {
        proof {
            reveal(seg_view);
            reveal(item_views);
        }
        PathSeg::FieldSet(v)
    }
}

impl FieldSetItem {
    pub fn field(n: String) -> (x: Self)
        ensures
            x@ == (FieldSetItemV::Field(n@)),
    {
        proof {
            reveal(item_view);
        }
        FieldSetItem::Field(n)
    }

    pub fn with_value(n: String, e: Expr) -> (x: Self)
        ensures
            x@ == (FieldSetItemV::Override(n@, e@)),
    {
        proof {
            reveal(item_view);
            reveal(expr_view);
        }
        FieldSetItem::Override(n, e)
    }

    pub fn spread(n: String) -> (x: Self)
        ensures
            x@ == (FieldSetItemV::Spread(n@)),
    {
        proof {
            reveal(item_view);
        }
        FieldSetItem::Spread(n)
    }
}

impl ObjectField {
    pub fn new(name: String, value: Expr, default: Option<Expr>) -> (x: Self)
        ensures
            x@ == (ObjectFieldV { name: name@, value: value@, default: opt_expr_view(default) }),
    {
        proof {
            reveal(object_view);
            reveal(expr_view);
            reveal(opt_expr_view);
        }
        ObjectField { name, value, default }
    }
}

impl SourceClause {
    pub fn new(path: PathExpr, alias: String) -> (x: Self)
        ensures
            x@ == (SourceClauseV { path: path@, alias: alias@ }),
    {
        proof {
            reveal(source_view);
            reveal(path_view);
        }
        SourceClause { path, alias }
    }
}

impl JoinClause {
    pub fn new(path: PathExpr, alias: String, on: Expr, kind: JoinKind) -> (x: Self)
        ensures
            x@ == (JoinClauseV { path: path@, alias: alias@, on: on@, kind }),
    {
        proof {
            reveal(join_view);
            reveal(path_view);
            reveal(expr_view);
        }
        JoinClause { path, alias, on, kind }
    }
}

impl UnnestClause {
    pub fn new(expr: Expr, alias: String) -> (x: Self)
        ensures
            x@ == (UnnestClauseV { expr: expr@, alias: alias@ }),
    {
        proof {
            reveal(unnest_view);
            reveal(expr_view);
        }
        UnnestClause { expr, alias }
    }
}

impl OrderKey {
    pub fn new(expr: Expr, desc: bool) -> (x: Self)
        ensures
            x@ == (OrderKeyV { expr: expr@, desc }),
    {
        proof {
            reveal(order_view);
            reveal(expr_view);
        }
        OrderKey { expr, desc }
    }
}

impl AliasLet {
    pub fn new(name: String, expr: Expr) -> (x: Self)
        ensures
            x@ == (AliasLetV { name: name@, expr: expr@ }),
    {
        proof {
            reveal(let_view);
            reveal(expr_view);
        }
        AliasLet { name, expr }
    }
}

impl AggBlockItem {
    pub fn new(name: String, output: Expr, where_pred: Option<Expr>, default: Option<Expr>) -> (x: Self)
        ensures
            x@ == (AggBlockItemV { name: name@, output: output@, where_pred: opt_expr_view(where_pred), default: opt_expr_view(default) }),
    {
        proof {
            reveal(agg_item_view);
            reveal(expr_view);
            reveal(opt_expr_view);
        }
        AggBlockItem { name, output, where_pred, default }
    }
}

impl AggregateBlock {
    pub fn new(reductions: Vec<AggBlockItem>, group_by: Vec<Expr>, rollup: bool) -> (x: Self)
        ensures
            x@ == (AggregateBlockV { reductions: agg_item_views(reductions@), group_by: expr_views(group_by@), rollup }),
    {
        proof {
            reveal(block_view);
            reveal(agg_item_views);
            reveal(expr_views);
        }
        AggregateBlock { reductions, group_by, rollup }
    }
}

impl AggregateClause {
    pub fn block(b: AggregateBlock) -> (x: Self)
        ensures
            x@ == (AggregateClauseV::Block(b@)),
    {
        proof {
            reveal(aggregate_view);
            reveal(block_view);
        }
        AggregateClause::Block(b)
    }

    pub fn group(key: Expr) -> (x: Self)
        ensures
            x@ == (AggregateClauseV::Group(GroupClauseV { key: key@ })),
    {
        proof {
            reveal(aggregate_view);
            reveal(expr_view);
        }
        AggregateClause::Group(GroupClause { key })
    }
}

impl Query {
    /// A query of rows, with no clause after `where`.
    pub fn rows(
        field_sets: Vec<FieldSetDef>,
        source: SourceClause,
        joins: Vec<JoinClause>,
        unnests: Vec<UnnestClause>,
        where_clause: Option<Expr>,
    ) -> (q: Query)
        ensures
            q@ == (QueryV {
                field_sets: field_set_views(field_sets@),
                source: source@,
                joins: join_views(joins@),
                unnests: unnest_views(unnests@),
                where_clause: opt_expr_view(where_clause),
                distinct: false,
                alias_lets: Seq::empty(),
                aggregate: None,
                having: None,
                project: None,
                order_by: Seq::empty(),
                limit: None,
            }),
    {
        proof {
            reveal(query_view);
            reveal(join_views);
            reveal(unnest_views);
            reveal(source_view);
            reveal(expr_view);
            reveal(let_views);
            reveal(order_views);
            reveal(select_views);
            reveal(aggregate_view);
            reveal(opt_expr_view);
            reveal(opt_aggregate_view);
            reveal(opt_select_view);
        }
        Query {
            field_sets,
            source,
            joins,
            unnests,
            where_clause,
            distinct: false,
            alias_lets: no_lets(),
            aggregate: None,
            having: None,
            project: None,
            order_by: no_orders(),
            limit: None,
        }
    }

    /// The query with the clauses from `let` to `having`.
    pub fn with_groups(
        self,
        alias_lets: Vec<AliasLet>,
        distinct: bool,
        aggregate: Option<AggregateClause>,
        having: Option<Expr>,
    ) -> (q: Query)
        ensures
            q@ == (QueryV {
                alias_lets: let_views(alias_lets@),
                distinct,
                aggregate: opt_aggregate_view(aggregate),
                having: opt_expr_view(having),
                ..self@
            }),
    {
        proof {
            reveal(query_view);
            reveal(let_views);
            reveal(aggregate_view);
            reveal(expr_view);
            reveal(source_view);
            reveal(join_views);
            reveal(unnest_views);
            reveal(order_views);
            reveal(select_views);
            reveal(opt_expr_view);
            reveal(opt_aggregate_view);
            reveal(opt_select_view);
        }
        Query { alias_lets, distinct, aggregate, having, ..self }
    }

    /// The query with its last clauses.
    pub fn with_output(
        self,
        project: Option<Vec<(String, Expr)>>,
        order_by: Vec<OrderKey>,
        limit: Option<u64>,
    ) -> (q: Query)
        ensures
            q@ == (QueryV {
                project: opt_select_view(project),
                order_by: order_views(order_by@),
                limit,
                ..self@
            }),
    {
        proof {
            reveal(query_view);
            reveal(select_views);
            reveal(order_views);
            reveal(source_view);
            reveal(join_views);
            reveal(unnest_views);
            reveal(let_views);
            reveal(expr_view);
            reveal(aggregate_view);
            reveal(opt_expr_view);
            reveal(opt_aggregate_view);
            reveal(opt_select_view);
        }
        Query { project, order_by, limit, ..self }
    }
}

pub fn no_exprs() -> (v: Vec<Expr>)
    ensures
        expr_views(v@) == Seq::<ExprV>::empty(),
        v@.len() == 0,
{
    let v: Vec<Expr> = Vec::new();
    proof {
        reveal(expr_views);
    }
    assert(expr_views(v@) =~= Seq::<ExprV>::empty());
    v
}

pub fn push_expr(v: &mut Vec<Expr>, x: Expr)
    ensures
        expr_views(final(v)@) == expr_views(old(v)@).push(x@),
        final(v)@ == old(v)@.push(x),
{
    v.push(x);
    proof {
        reveal(expr_views);
        reveal(expr_view);
    }
    assert(expr_views(v@) =~= expr_views(old(v)@).push(x@));
}

pub fn no_segs() -> (v: Vec<PathSeg>)
    ensures
        seg_views(v@) == Seq::<PathSegV>::empty(),
        v@.len() == 0,
{
    let v: Vec<PathSeg> = Vec::new();
    proof {
        reveal(seg_views);
    }
    assert(seg_views(v@) =~= Seq::<PathSegV>::empty());
    v
}

pub fn push_seg(v: &mut Vec<PathSeg>, x: PathSeg)
    ensures
        seg_views(final(v)@) == seg_views(old(v)@).push(x@),
        final(v)@ == old(v)@.push(x),
{
    v.push(x);
    proof {
        reveal(seg_views);
        reveal(seg_view);
    }
    assert(seg_views(v@) =~= seg_views(old(v)@).push(x@));
}

pub fn no_items() -> (v: Vec<FieldSetItem>)
    ensures
        item_views(v@) == Seq::<FieldSetItemV>::empty(),
        v@.len() == 0,
{
    let v: Vec<FieldSetItem> = Vec::new();
    proof {
        reveal(item_views);
    }
    assert(item_views(v@) =~= Seq::<FieldSetItemV>::empty());
    v
}

pub fn push_item(v: &mut Vec<FieldSetItem>, x: FieldSetItem)
    ensures
        item_views(final(v)@) == item_views(old(v)@).push(x@),
        final(v)@ == old(v)@.push(x),
{
    v.push(x);
    proof {
        reveal(item_views);
        reveal(item_view);
    }
    assert(item_views(v@) =~= item_views(old(v)@).push(x@));
}

pub fn no_objects() -> (v: Vec<ObjectField>)
    ensures
        object_views(v@) == Seq::<ObjectFieldV>::empty(),
        v@.len() == 0,
{
    let v: Vec<ObjectField> = Vec::new();
    proof {
        reveal(object_views);
    }
    assert(object_views(v@) =~= Seq::<ObjectFieldV>::empty());
    v
}

pub fn push_object(v: &mut Vec<ObjectField>, x: ObjectField)
    ensures
        object_views(final(v)@) == object_views(old(v)@).push(x@),
        final(v)@ == old(v)@.push(x),
{
    v.push(x);
    proof {
        reveal(object_views);
        reveal(object_view);
    }
    assert(object_views(v@) =~= object_views(old(v)@).push(x@));
}

pub fn no_joins() -> (v: Vec<JoinClause>)
    ensures
        join_views(v@) == Seq::<JoinClauseV>::empty(),
        v@.len() == 0,
{
    let v: Vec<JoinClause> = Vec::new();
    proof {
        reveal(join_views);
    }
    assert(join_views(v@) =~= Seq::<JoinClauseV>::empty());
    v
}

pub fn push_join(v: &mut Vec<JoinClause>, x: JoinClause)
    ensures
        join_views(final(v)@) == join_views(old(v)@).push(x@),
        final(v)@ == old(v)@.push(x),
{
    v.push(x);
    proof {
        reveal(join_views);
        reveal(join_view);
    }
    assert(join_views(v@) =~= join_views(old(v)@).push(x@));
}

pub fn no_unnests() -> (v: Vec<UnnestClause>)
    ensures
        unnest_views(v@) == Seq::<UnnestClauseV>::empty(),
        v@.len() == 0,
{
    let v: Vec<UnnestClause> = Vec::new();
    proof {
        reveal(unnest_views);
    }
    assert(unnest_views(v@) =~= Seq::<UnnestClauseV>::empty());
    v
}

pub fn push_unnest(v: &mut Vec<UnnestClause>, x: UnnestClause)
    ensures
        unnest_views(final(v)@) == unnest_views(old(v)@).push(x@),
        final(v)@ == old(v)@.push(x),
{
    v.push(x);
    proof {
        reveal(unnest_views);
        reveal(unnest_view);
    }
    assert(unnest_views(v@) =~= unnest_views(old(v)@).push(x@));
}

pub fn no_orders() -> (v: Vec<OrderKey>)
    ensures
        order_views(v@) == Seq::<OrderKeyV>::empty(),
        v@.len() == 0,
{
    let v: Vec<OrderKey> = Vec::new();
    proof {
        reveal(order_views);
    }
    assert(order_views(v@) =~= Seq::<OrderKeyV>::empty());
    v
}

pub fn push_order(v: &mut Vec<OrderKey>, x: OrderKey)
    ensures
        order_views(final(v)@) == order_views(old(v)@).push(x@),
        final(v)@ == old(v)@.push(x),
{
    v.push(x);
    proof {
        reveal(order_views);
        reveal(order_view);
    }
    assert(order_views(v@) =~= order_views(old(v)@).push(x@));
}

pub fn no_lets() -> (v: Vec<AliasLet>)
    ensures
        let_views(v@) == Seq::<AliasLetV>::empty(),
        v@.len() == 0,
{
    let v: Vec<AliasLet> = Vec::new();
    proof {
        reveal(let_views);
    }
    assert(let_views(v@) =~= Seq::<AliasLetV>::empty());
    v
}

pub fn push_let(v: &mut Vec<AliasLet>, x: AliasLet)
    ensures
        let_views(final(v)@) == let_views(old(v)@).push(x@),
        final(v)@ == old(v)@.push(x),
{
    v.push(x);
    proof {
        reveal(let_views);
        reveal(let_view);
    }
    assert(let_views(v@) =~= let_views(old(v)@).push(x@));
}

pub fn no_agg_items() -> (v: Vec<AggBlockItem>)
    ensures
        agg_item_views(v@) == Seq::<AggBlockItemV>::empty(),
        v@.len() == 0,
{
    let v: Vec<AggBlockItem> = Vec::new();
    proof {
        reveal(agg_item_views);
    }
    assert(agg_item_views(v@) =~= Seq::<AggBlockItemV>::empty());
    v
}

pub fn push_agg_item(v: &mut Vec<AggBlockItem>, x: AggBlockItem)
    ensures
        agg_item_views(final(v)@) == agg_item_views(old(v)@).push(x@),
        final(v)@ == old(v)@.push(x),
{
    let ghost before = v@;
    v.push(x);
    proof {
        agg_item_views_push(before, x);
    }
}

#[verifier::spinoff_prover]
proof fn agg_item_views_push(v: Seq<AggBlockItem>, x: AggBlockItem)
    ensures
        agg_item_views(v.push(x)) == agg_item_views(v).push(agg_item_view(x)),
{
    reveal(agg_item_views);
    reveal(agg_item_view);
    assert(agg_item_views(v.push(x)) =~= agg_item_views(v).push(agg_item_view(x)));
}

pub fn no_field_sets() -> (v: Vec<FieldSetDef>)
    ensures
        field_set_views(v@) == Seq::<FieldSetDefV>::empty(),
        v@.len() == 0,
{
    let v: Vec<FieldSetDef> = Vec::new();
    proof {
        reveal(field_set_views);
    }
    assert(field_set_views(v@) =~= Seq::<FieldSetDefV>::empty());
    v
}

pub fn push_field_set(v: &mut Vec<FieldSetDef>, x: FieldSetDef)
    ensures
        field_set_views(final(v)@) == field_set_views(old(v)@).push(x@),
        final(v)@ == old(v)@.push(x),
{
    v.push(x);
    proof {
        reveal(field_set_views);
    }
    assert(field_set_views(v@) =~= field_set_views(old(v)@).push(x@));
}

pub fn no_selects() -> (v: Vec<(String, Expr)>)
    ensures
        select_views(v@) == Seq::<(Seq<char>, ExprV)>::empty(),
        v@.len() == 0,
{
    let v: Vec<(String, Expr)> = Vec::new();
    proof {
        reveal(select_views);
    }
    assert(select_views(v@) =~= Seq::<(Seq<char>, ExprV)>::empty());
    v
}

pub fn push_select(v: &mut Vec<(String, Expr)>, n: String, x: Expr)
    ensures
        select_views(final(v)@) == select_views(old(v)@).push((n@, x@)),
        final(v)@ == old(v)@.push((n, x)),
{
    v.push((n, x));
    proof {
        reveal(select_views);
        reveal(expr_view);
    }
    assert(select_views(v@) =~= select_views(old(v)@).push((n@, x@)));
}

pub proof fn expr_views_len(v: Seq<Expr>)
    ensures
        expr_views(v).len() == v.len(),
{
    reveal(expr_views);
}

pub proof fn item_views_len(v: Seq<FieldSetItem>)
    ensures
        item_views(v).len() == v.len(),
{
    reveal(item_views);
}

pub proof fn agg_item_views_len(v: Seq<AggBlockItem>)
    ensures
        agg_item_views(v).len() == v.len(),
{
    reveal(agg_item_views);
}

pub proof fn select_views_len(v: Seq<(String, Expr)>)
    ensures
        select_views(v).len() == v.len(),
{
    reveal(select_views);
}

} // verus!
