//! The engine's query tree. Queries in the surface language compile to it,
//! and the evaluator interprets it.
use vstd::prelude::*;

use super::grammar::kw;

verus! {

/// A query tree.
pub enum Ast {
    Identity,
    Field(String),
    Index(i64),
    Iterate,
    Pipe(Box<Ast>, Box<Ast>),
    /// The input and every descendant.
    Descend,
    /// `Descend | Field(name)` in one walk.
    DescendField(String),
    /// `Iterate | Field(name)` in one walk.
    IterateField(String),
    /// A number, as it is written.
    LitNumber(String),
    LitString(String),
    LitBool(bool),
    LitNull,
    Compare(Box<Ast>, CompareOp, Box<Ast>),
    And(Box<Ast>, Box<Ast>),
    Or(Box<Ast>, Box<Ast>),
    Not,
    /// Keeps the inputs for which the predicate is truthy.
    Select(Box<Ast>),
    Sum,
    Min,
    Max,
    Avg,
    Count,
    /// Runs the left side once per group of the right side's keys.
    By(Box<Ast>, Box<Ast>),
    /// Resolves the input as a key into `source`, indexed by `key`. The two
    /// canonical texts name the index.
    Lookup { source: Box<Ast>, key: Box<Ast>, source_canon: String, key_canon: String },
    /// A group key of several parts.
    KeyTuple(Vec<Ast>),
    /// An object of the first emission of each expression.
    Project(Vec<(String, Ast)>),
    SortBy(Vec<(Ast, SortDir)>),
    Limit(u64),
    Distinct,
    Exists(Box<Ast>),
    /// Passes its values on and counts them.
    Tap(Box<Ast>),
    /// Binds a name for the stages after it.
    Let { name: String, value: Box<Ast> },
    Var(String),
    /// All of `fields` of `base` equal `target`.
    FieldSetEquals { base: Box<Ast>, fields: Vec<String>, target: Box<Ast> },
    /// Several named reductions, over all rows or by group.
    AggregateBlock {
        group: Option<AggGroup>,
        reductions: Vec<AggReduction>,
        outputs: Vec<(String, AggOutputNode)>,
    },
    Binary { op: BinaryOp, lhs: Box<Ast>, rhs: Box<Ast> },
    Neg(Box<Ast>),
    /// A finished reduction of the surrounding aggregate block.
    ReducerSlot(usize),
    Object(Vec<(String, Ast)>),
    TypeTest { value: Box<Ast>, kind: JsonTypeKind, negated: bool },
    Round { value: Box<Ast>, precision: Option<Box<Ast>> },
    /// Binds `alias` to each row that `lookup` finds for `outer_key`; an
    /// outer join keeps a row without a match, with a null alias.
    JoinEach { alias: String, outer_key: Box<Ast>, lookup: Box<Ast>, inner: bool },
    /// Binds `alias` to each element of the array that `source` gives.
    UnnestEach { alias: String, source: Box<Ast> },
    /// A nested query, run against the document root.
    Subquery { pipeline: Box<Ast> },
    ArrayLit(Vec<Ast>),
    Call { name: String, args: Vec<Ast> },
    If { cond: Box<Ast>, then_branch: Box<Ast>, else_branch: Box<Ast> },
}

/// A query tree in mathematical form.
pub enum AstV {
    Identity,
    Field(Seq<char>),
    Index(i64),
    Iterate,
    Pipe(Box<AstV>, Box<AstV>),
    Descend,
    DescendField(Seq<char>),
    IterateField(Seq<char>),
    LitNumber(Seq<char>),
    LitString(Seq<char>),
    LitBool(bool),
    LitNull,
    Compare(Box<AstV>, CompareOp, Box<AstV>),
    And(Box<AstV>, Box<AstV>),
    Or(Box<AstV>, Box<AstV>),
    Not,
    Select(Box<AstV>),
    Sum,
    Min,
    Max,
    Avg,
    Count,
    By(Box<AstV>, Box<AstV>),
    Lookup { source: Box<AstV>, key: Box<AstV>, source_canon: Seq<char>, key_canon: Seq<char> },
    KeyTuple(Seq<AstV>),
    Project(Seq<(Seq<char>, AstV)>),
    SortBy(Seq<(AstV, SortDir)>),
    Limit(u64),
    Distinct,
    Exists(Box<AstV>),
    Tap(Box<AstV>),
    Let { name: Seq<char>, value: Box<AstV> },
    Var(Seq<char>),
    FieldSetEquals { base: Box<AstV>, fields: Seq<Seq<char>>, target: Box<AstV> },
    AggregateBlock {
        group: Option<AggGroupV>,
        reductions: Seq<AggReductionV>,
        outputs: Seq<(Seq<char>, AggOutputV)>,
    },
    Binary { op: BinaryOp, lhs: Box<AstV>, rhs: Box<AstV> },
    Neg(Box<AstV>),
    ReducerSlot(usize),
    Object(Seq<(Seq<char>, AstV)>),
    TypeTest { value: Box<AstV>, kind: JsonTypeKind, negated: bool },
    Round { value: Box<AstV>, precision: Option<Box<AstV>> },
    JoinEach { alias: Seq<char>, outer_key: Box<AstV>, lookup: Box<AstV>, inner: bool },
    UnnestEach { alias: Seq<char>, source: Box<AstV> },
    Subquery { pipeline: Box<AstV> },
    ArrayLit(Seq<AstV>),
    Call { name: Seq<char>, args: Seq<AstV> },
    If { cond: Box<AstV>, then_branch: Box<AstV>, else_branch: Box<AstV> },
}

/// A JSON type, as the right side of `is`.
#[derive(Copy, Clone, Debug, PartialEq, Eq, Hash, Structural)]
pub enum JsonTypeKind {
    String,
    Number,
    Bool,
    Null,
    Array,
    Object,
}

impl JsonTypeKind {
    /// The name of the type.
    pub open spec fn name(self) -> Seq<char> {
        match self {
            JsonTypeKind::String => "string"@,
            JsonTypeKind::Number => "number"@,
            JsonTypeKind::Bool => "bool"@,
            JsonTypeKind::Null => "null"@,
            JsonTypeKind::Array => "array"@,
            JsonTypeKind::Object => "object"@,
        }
    }

    /// The type with this name.
    pub open spec fn named(s: Seq<char>) -> Option<JsonTypeKind> {
        if s == "string"@ {
            Some(JsonTypeKind::String)
        } else if s == "number"@ {
            Some(JsonTypeKind::Number)
        } else if s == "bool"@ {
            Some(JsonTypeKind::Bool)
        } else if s == "null"@ {
            Some(JsonTypeKind::Null)
        } else if s == "array"@ {
            Some(JsonTypeKind::Array)
        } else if s == "object"@ {
            Some(JsonTypeKind::Object)
        } else {
            None
        }
    }

    pub fn keyword(self) -> (s: &'static str)
        ensures
            s@ == self.name(),
    {
        match self {
            JsonTypeKind::String => "string",
            JsonTypeKind::Number => "number",
            JsonTypeKind::Bool => "bool",
            JsonTypeKind::Null => "null",
            JsonTypeKind::Array => "array",
            JsonTypeKind::Object => "object",
        }
    }

    /// The type with this name; `None` for any other word.
    pub fn from_keyword(s: &str) -> (r: Option<JsonTypeKind>)
        ensures
            r == JsonTypeKind::named(s@),
    {
        if *s == *"string" {
            Some(JsonTypeKind::String)
        } else if *s == *"number" {
            Some(JsonTypeKind::Number)
        } else if *s == *"bool" {
            Some(JsonTypeKind::Bool)
        } else if *s == *"null" {
            Some(JsonTypeKind::Null)
        } else if *s == *"array" {
            Some(JsonTypeKind::Array)
        } else if *s == *"object" {
            Some(JsonTypeKind::Object)
        } else {
            None
        }
    }
}

/// A type's name reads back as the type.
pub proof fn type_name_round_trip(k: JsonTypeKind)
    ensures
        JsonTypeKind::named(k.name()) == Some(k),
{
    reveal_strlit("string");
    reveal_strlit("number");
    reveal_strlit("bool");
    reveal_strlit("null");
    reveal_strlit("array");
    reveal_strlit("object");
    assert("string"@[0] != "number"@[0]);
    assert("string"@[0] != "bool"@[0]);
    assert("string"@[0] != "null"@[0]);
    assert("string"@[0] != "array"@[0]);
    assert("string"@[0] != "object"@[0]);
    assert("number"@.len() != "null"@.len());
    assert("number"@[0] != "bool"@[0]);
    assert("number"@[0] != "array"@[0]);
    assert("number"@[0] != "object"@[0]);
    assert("bool"@[0] != "null"@[0]);
    assert("bool"@[0] != "array"@[0]);
    assert("bool"@[0] != "object"@[0]);
    assert("null"@[0] != "array"@[0]);
    assert("null"@[0] != "object"@[0]);
    assert("array"@[0] != "object"@[0]);
}

/// One output of an aggregate block: an expression over reductions, or an
/// object of further outputs.
pub enum AggOutputNode {
    Leaf { expr: Box<Ast>, default: Option<Box<Ast>> },
    Object(Vec<(String, AggOutputNode)>),
}

pub enum AggOutputV {
    Leaf { expr: Box<AstV>, default: Option<Box<AstV>> },
    Object(Seq<(Seq<char>, AggOutputV)>),
}

/// One key of a rollup.
pub struct AggGroupKey {
    pub name: String,
    pub key: Box<Ast>,
}

pub struct AggGroupKeyV {
    pub name: Seq<char>,
    pub key: Box<AstV>,
}

/// How an aggregate block groups its rows.
pub enum AggGroup {
    Single { name: String, key: Box<Ast> },
    Rollup(Vec<AggGroupKey>),
}

pub enum AggGroupV {
    Single { name: Seq<char>, key: Box<AstV> },
    Rollup(Seq<AggGroupKeyV>),
}

/// One reduction of an aggregate block.
pub struct AggReduction {
    pub name: String,
    pub op: ReducerOp,
    pub value: Option<Box<Ast>>,
    pub where_pred: Option<Box<Ast>>,
}

pub struct AggReductionV {
    pub name: Seq<char>,
    pub op: ReducerOp,
    pub value: Option<Box<AstV>>,
    pub where_pred: Option<Box<AstV>>,
}

#[derive(Copy, Clone, Debug, PartialEq, Eq, Structural)]
pub enum SortDir {
    Asc,
    Desc,
}

#[derive(Copy, Clone, Debug, PartialEq, Eq, Structural)]
pub enum ReducerOp {
    Sum,
    Min,
    Max,
    Avg,
    Count,
}

impl ReducerOp {
    pub open spec fn name(self) -> Seq<char> {
        match self {
            ReducerOp::Sum => kw::SUM@,
            ReducerOp::Min => kw::MIN@,
            ReducerOp::Max => kw::MAX@,
            ReducerOp::Avg => kw::AVG@,
            ReducerOp::Count => kw::COUNT@,
        }
    }

    pub fn keyword(self) -> (s: &'static str)
        ensures
            s@ == self.name(),
    {
        match self {
            ReducerOp::Sum => kw::SUM,
            ReducerOp::Min => kw::MIN,
            ReducerOp::Max => kw::MAX,
            ReducerOp::Avg => kw::AVG,
            ReducerOp::Count => kw::COUNT,
        }
    }
}

#[derive(Copy, Clone, Debug, PartialEq, Eq, Structural)]
pub enum BinaryOp {
    Add,
    Sub,
    Mul,
    Div,
}

impl BinaryOp {
    pub open spec fn symbol(self) -> Seq<char> {
        match self {
            BinaryOp::Add => "+"@,
            BinaryOp::Sub => "-"@,
            BinaryOp::Mul => "*"@,
            BinaryOp::Div => "/"@,
        }
    }

    pub fn as_str(self) -> (s: &'static str)
        ensures
            s@ == self.symbol(),
    {
        match self {
            BinaryOp::Add => "+",
            BinaryOp::Sub => "-",
            BinaryOp::Mul => "*",
            BinaryOp::Div => "/",
        }
    }
}

#[derive(Copy, Clone, Debug, PartialEq, Eq, Structural)]
pub enum CompareOp {
    Eq,
    Ne,
    Lt,
    Le,
    Gt,
    Ge,
    /// Substring test.
    Contains,
    StartsWith,
    EndsWith,
    /// Glob match: `*` is any run of characters, `?` exactly one.
    Matches,
}

impl CompareOp {
    pub open spec fn symbol(self) -> Seq<char> {
        match self {
            CompareOp::Eq => "=="@,
            CompareOp::Ne => "!="@,
            CompareOp::Lt => "<"@,
            CompareOp::Le => "<="@,
            CompareOp::Gt => ">"@,
            CompareOp::Ge => ">="@,
            CompareOp::Contains => kw::CONTAINS@,
            CompareOp::StartsWith => kw::STARTS_WITH@,
            CompareOp::EndsWith => kw::ENDS_WITH@,
            CompareOp::Matches => kw::MATCHES@,
        }
    }

    pub fn as_str(self) -> (s: &'static str)
        ensures
            s@ == self.symbol(),
    {
        match self {
            CompareOp::Eq => "==",
            CompareOp::Ne => "!=",
            CompareOp::Lt => "<",
            CompareOp::Le => "<=",
            CompareOp::Gt => ">",
            CompareOp::Ge => ">=",
            CompareOp::Contains => kw::CONTAINS,
            CompareOp::StartsWith => kw::STARTS_WITH,
            CompareOp::EndsWith => kw::ENDS_WITH,
            CompareOp::Matches => kw::MATCHES,
        }
    }
}

/// The view of an optional subtree.
pub open spec fn opt_view(o: Option<Box<Ast>>) -> Option<Box<AstV>>
    decreases o,
{
    match o {
        Some(b) => Some(Box::new(b.view())),
        None => None,
    }
}

/// The views of a run of subtrees.
pub open spec fn views(v: Seq<Ast>) -> Seq<AstV>
    decreases v,
{
    Seq::new(
        v.len(),
        |i: int|
            if 0 <= i < v.len() {
                v[i].view()
            } else {
                arbitrary()
            },
    )
}

/// The views of named subtrees.
pub open spec fn field_views(v: Seq<(String, Ast)>) -> Seq<(Seq<char>, AstV)>
    decreases v,
{
    Seq::new(
        v.len(),
        |i: int|
            if 0 <= i < v.len() {
                (v[i].0@, v[i].1.view())
            } else {
                arbitrary()
            },
    )
}

pub open spec fn key_views(v: Seq<(Ast, SortDir)>) -> Seq<(AstV, SortDir)>
    decreases v,
{
    Seq::new(
        v.len(),
        |i: int|
            if 0 <= i < v.len() {
                (v[i].0.view(), v[i].1)
            } else {
                arbitrary()
            },
    )
}

pub open spec fn output_views(v: Seq<(String, AggOutputNode)>) -> Seq<(Seq<char>, AggOutputV)>
    decreases v,
{
    Seq::new(
        v.len(),
        |i: int|
            if 0 <= i < v.len() {
                (v[i].0@, v[i].1.view())
            } else {
                arbitrary()
            },
    )
}

pub open spec fn reduction_views(v: Seq<AggReduction>) -> Seq<AggReductionV>
    decreases v,
{
    Seq::new(
        v.len(),
        |i: int|
            if 0 <= i < v.len() {
                v[i].view()
            } else {
                arbitrary()
            },
    )
}

pub open spec fn group_key_views(v: Seq<AggGroupKey>) -> Seq<AggGroupKeyV>
    decreases v,
{
    Seq::new(
        v.len(),
        |i: int|
            if 0 <= i < v.len() {
                v[i].view()
            } else {
                arbitrary()
            },
    )
}

/// The views of a run of strings.
pub open spec fn texts(v: Seq<String>) -> Seq<Seq<char>> {
    Seq::new(v.len(), |i: int| v[i]@)
}

impl AggOutputNode {
    pub open spec fn view(self) -> AggOutputV
        decreases self,
    {
        match self {
            AggOutputNode::Leaf { expr, default } => AggOutputV::Leaf {
                expr: Box::new(expr.view()),
                default: opt_view(default),
            },
            AggOutputNode::Object(fields) => AggOutputV::Object(output_views(fields@)),
        }
    }
}

impl AggReduction {
    pub open spec fn view(self) -> AggReductionV
        decreases self,
    {
        AggReductionV {
            name: self.name@,
            op: self.op,
            value: opt_view(self.value),
            where_pred: opt_view(self.where_pred),
        }
    }
}

impl AggGroupKey {
    pub open spec fn view(self) -> AggGroupKeyV
        decreases self,
    {
        AggGroupKeyV { name: self.name@, key: Box::new(self.key.view()) }
    }
}

impl AggGroup {
    pub open spec fn view(self) -> AggGroupV
        decreases self,
    {
        match self {
            AggGroup::Single { name, key } => AggGroupV::Single {
                name: name@,
                key: Box::new(key.view()),
            },
            AggGroup::Rollup(keys) => AggGroupV::Rollup(group_key_views(keys@)),
        }
    }
}

impl Ast {
    pub open spec fn view(self) -> AstV
        decreases self,
    {
        match self {
            Ast::Identity => AstV::Identity,
            Ast::Field(n) => AstV::Field(n@),
            Ast::Index(i) => AstV::Index(i),
            Ast::Iterate => AstV::Iterate,
            Ast::Pipe(l, r) => AstV::Pipe(Box::new(l.view()), Box::new(r.view())),
            Ast::Descend => AstV::Descend,
            Ast::DescendField(n) => AstV::DescendField(n@),
            Ast::IterateField(n) => AstV::IterateField(n@),
            Ast::LitNumber(n) => AstV::LitNumber(n@),
            Ast::LitString(s) => AstV::LitString(s@),
            Ast::LitBool(b) => AstV::LitBool(b),
            Ast::LitNull => AstV::LitNull,
            Ast::Compare(l, op, r) => AstV::Compare(Box::new(l.view()), op, Box::new(r.view())),
            Ast::And(l, r) => AstV::And(Box::new(l.view()), Box::new(r.view())),
            Ast::Or(l, r) => AstV::Or(Box::new(l.view()), Box::new(r.view())),
            Ast::Not => AstV::Not,
            Ast::Select(p) => AstV::Select(Box::new(p.view())),
            Ast::Sum => AstV::Sum,
            Ast::Min => AstV::Min,
            Ast::Max => AstV::Max,
            Ast::Avg => AstV::Avg,
            Ast::Count => AstV::Count,
            Ast::By(e, k) => AstV::By(Box::new(e.view()), Box::new(k.view())),
            Ast::Lookup { source, key, source_canon, key_canon } => AstV::Lookup {
                source: Box::new(source.view()),
                key: Box::new(key.view()),
                source_canon: source_canon@,
                key_canon: key_canon@,
            },
            Ast::KeyTuple(parts) => AstV::KeyTuple(views(parts@)),
            Ast::Project(fields) => AstV::Project(field_views(fields@)),
            Ast::SortBy(keys) => AstV::SortBy(key_views(keys@)),
            Ast::Limit(n) => AstV::Limit(n),
            Ast::Distinct => AstV::Distinct,
            Ast::Exists(e) => AstV::Exists(Box::new(e.view())),
            Ast::Tap(e) => AstV::Tap(Box::new(e.view())),
            Ast::Let { name, value } => AstV::Let { name: name@, value: Box::new(value.view()) },
            Ast::Var(n) => AstV::Var(n@),
            Ast::FieldSetEquals { base, fields, target } => AstV::FieldSetEquals {
                base: Box::new(base.view()),
                fields: texts(fields@),
                target: Box::new(target.view()),
            },
            Ast::AggregateBlock { group, reductions, outputs } => AstV::AggregateBlock {
                group: match group {
                    Some(g) => Some(g.view()),
                    None => None,
                },
                reductions: reduction_views(reductions@),
                outputs: output_views(outputs@),
            },
            Ast::Binary { op, lhs, rhs } => AstV::Binary {
                op,
                lhs: Box::new(lhs.view()),
                rhs: Box::new(rhs.view()),
            },
            Ast::Neg(e) => AstV::Neg(Box::new(e.view())),
            Ast::ReducerSlot(i) => AstV::ReducerSlot(i),
            Ast::Object(fields) => AstV::Object(field_views(fields@)),
            Ast::TypeTest { value, kind, negated } => AstV::TypeTest {
                value: Box::new(value.view()),
                kind,
                negated,
            },
            Ast::Round { value, precision } => AstV::Round {
                value: Box::new(value.view()),
                precision: opt_view(precision),
            },
            Ast::JoinEach { alias, outer_key, lookup, inner } => AstV::JoinEach {
                alias: alias@,
                outer_key: Box::new(outer_key.view()),
                lookup: Box::new(lookup.view()),
                inner,
            },
            Ast::UnnestEach { alias, source } => AstV::UnnestEach {
                alias: alias@,
                source: Box::new(source.view()),
            },
            Ast::Subquery { pipeline } => AstV::Subquery { pipeline: Box::new(pipeline.view()) },
            Ast::ArrayLit(items) => AstV::ArrayLit(views(items@)),
            Ast::Call { name, args } => AstV::Call { name: name@, args: views(args@) },
            Ast::If { cond, then_branch, else_branch } => AstV::If {
                cond: Box::new(cond.view()),
                then_branch: Box::new(then_branch.view()),
                else_branch: Box::new(else_branch.view()),
            },
        }
    }
}

} // verus!
