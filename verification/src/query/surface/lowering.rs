//! The engine tree that a surface query stands for.
//!
//! `from` and `join` bind their aliases row by row, so that paths under an
//! alias read a bound name. The names of `let` stand for their expressions
//! and do not reach the engine.
use vstd::prelude::*;

use super::super::ast::{
    AggGroupKeyV, AggGroupV, AggOutputV, AggReductionV, AstV, CompareOp, ReducerOp, SortDir,
};
use super::super::canonical::canon;
use super::super::{qfault, QueryFault};
use super::ast::{
    AggBlockItemV, AggOp, AggregateBlockV, AggregateClauseV, AliasLetV, ExprV, FieldSetDefV,
    FieldSetItemV, JoinClauseV, JoinKind, LitV, ObjectFieldV, OrderKeyV, PathExprV, PathRootV,
    PathSegV, QueryV, UnnestClauseV,
};
use super::predicates::reordered;
use crate::text::decimal_text;

verus! {

/// A value for a `$name` in a query. A number is given as it is written.
pub enum ParamV {
    Number(Seq<char>),
    Str(Seq<char>),
    Bool(bool),
    Null,
}

/// What is known where an expression stands: the aliases in scope, the named
/// field sets, the parameters, the `let` names, and the alias that a join
/// leaves out of its own keys. `left` is how many more queries may nest.
pub struct ScopeV {
    pub aliases: Seq<Seq<char>>,
    pub sets: Seq<FieldSetDefV>,
    pub params: Seq<(Seq<char>, ParamV)>,
    pub lets: Seq<AliasLetV>,
    pub strip: Option<Seq<char>>,
    pub left: nat,
}

impl ScopeV {
    pub open spec fn with_aliases(self, a: Seq<Seq<char>>) -> ScopeV {
        ScopeV { aliases: a, ..self }
    }

    pub open spec fn with_lets(self, l: Seq<AliasLetV>) -> ScopeV {
        ScopeV { lets: l, ..self }
    }

    /// Without `let` names and without an alias to leave out.
    pub open spec fn plain(self) -> ScopeV {
        ScopeV { lets: Seq::empty(), strip: None, ..self }
    }

    pub open spec fn stripping(self, a: Seq<char>) -> ScopeV {
        ScopeV { strip: Some(a), ..self }
    }
}

pub open spec fn fault(m: Seq<char>) -> QueryFault {
    qfault(0, m)
}

/// The first parameter called `n`.
pub open spec fn param_named(p: Seq<(Seq<char>, ParamV)>, n: Seq<char>, i: int) -> Option<ParamV>
    decreases p.len() - i,
{
    if !(0 <= i < p.len()) {
        None
    } else if p[i].0 == n {
        Some(p[i].1)
    } else {
        param_named(p, n, i + 1)
    }
}

pub open spec fn param_ast(p: ParamV) -> AstV {
    match p {
        ParamV::Number(t) => AstV::LitNumber(t),
        ParamV::Str(s) => AstV::LitString(s),
        ParamV::Bool(b) => AstV::LitBool(b),
        ParamV::Null => AstV::LitNull,
    }
}

pub open spec fn lit_ast(l: LitV) -> AstV {
    match l {
        LitV::Number(t) => AstV::LitNumber(t),
        LitV::Str(s) => AstV::LitString(s),
        LitV::Bool(b) => AstV::LitBool(b),
        LitV::Null => AstV::LitNull,
    }
}

/// The last field set called `n` among the first `k`.
pub open spec fn set_named(s: Seq<FieldSetDefV>, n: Seq<char>, k: nat) -> Option<Seq<Seq<char>>>
    decreases k,
{
    if k == 0 {
        None
    } else if s[k - 1].name == n {
        Some(s[k - 1].fields)
    } else {
        set_named(s, n, (k - 1) as nat)
    }
}

/// The place of the `let` called `n`.
pub open spec fn let_named(l: Seq<AliasLetV>, n: Seq<char>, i: int) -> Option<int>
    decreases l.len() - i,
{
    if !(0 <= i < l.len()) {
        None
    } else if l[i].name == n {
        Some(i)
    } else {
        let_named(l, n, i + 1)
    }
}

/// The `let` that an expression is nothing but the name of.
pub open spec fn let_of(e: ExprV, s: ScopeV) -> Option<int> {
    match e {
        ExprV::Path(p) => match p.root {
            PathRootV::Name(n) => if p.segments.len() == 0 {
                let_named(s.lets, n, 0)
            } else {
                None
            },
            _ => None,
        },
        _ => None,
    }
}

pub proof fn let_named_range(l: Seq<AliasLetV>, n: Seq<char>, i: int)
    requires
        0 <= i,
    ensures
        let_named(l, n, i) matches Some(k) ==> i <= k < l.len(),
    decreases l.len() - i,
{
    if i < l.len() {
        let_named_range(l, n, i + 1);
    }
}

/// A stage after another. A field right after a walk over children or
/// descendants is read in that walk.
pub open spec fn piped(l: AstV, r: AstV) -> AstV {
    if l is Identity {
        r
    } else {
        match r {
            AstV::Field(n) => match l {
                AstV::Descend => AstV::DescendField(n),
                AstV::Iterate => AstV::IterateField(n),
                AstV::Pipe(a, b) => if *b is Descend {
                    AstV::Pipe(a, Box::new(AstV::DescendField(n)))
                } else if *b is Iterate {
                    AstV::Pipe(a, Box::new(AstV::IterateField(n)))
                } else {
                    AstV::Pipe(Box::new(l), Box::new(r))
                },
                _ => AstV::Pipe(Box::new(l), Box::new(r)),
            },
            _ => AstV::Pipe(Box::new(l), Box::new(r)),
        }
    }
}

/// The steps of a path.
pub open spec fn stepped(root: AstV, segs: Seq<PathSegV>) -> Result<AstV, QueryFault>
    decreases segs.len(),
{
    if segs.len() == 0 {
        Ok(root)
    } else {
        match stepped(root, segs.drop_last()) {
            Err(e) => Err(e),
            Ok(a) => match segs.last() {
                PathSegV::Field(n) => Ok(piped(a, AstV::Field(n))),
                PathSegV::Index(i) => Ok(piped(a, AstV::Index(i))),
                PathSegV::Iterate => Ok(piped(a, AstV::Iterate)),
                PathSegV::StarStar => Ok(piped(a, AstV::Descend)),
                PathSegV::FieldSet(_) => Err(
                    fault("field-set is only legal as the LHS of a comparison"@),
                ),
            },
        }
    }
}

pub open spec fn lowered_path(p: PathExprV, s: ScopeV) -> Result<AstV, QueryFault> {
    match p.root {
        PathRootV::Identity => stepped(AstV::Identity, p.segments),
        PathRootV::Name(n) => if s.strip == Some(n) {
            stepped(AstV::Identity, p.segments)
        } else if !s.aliases.contains(n) {
            Err(fault("undefined alias `"@ + n + "`"@))
        } else {
            stepped(AstV::Var(n), p.segments)
        },
    }
}

/// A field with its right side; a later one replaces an earlier one.
pub open spec fn put_entry(
    v: Seq<(Seq<char>, AstV)>,
    n: Seq<char>,
    a: AstV,
    i: int,
) -> Seq<(Seq<char>, AstV)>
    decreases v.len() - i,
{
    if !(0 <= i < v.len()) {
        v.push((n, a))
    } else if v[i].0 == n {
        v.update(i, (n, a))
    } else {
        put_entry(v, n, a, i + 1)
    }
}

/// Fields with the same right side.
pub open spec fn put_entries(
    v: Seq<(Seq<char>, AstV)>,
    names: Seq<Seq<char>>,
    a: AstV,
) -> Seq<(Seq<char>, AstV)>
    decreases names.len(),
{
    if names.len() == 0 {
        v
    } else {
        put_entry(put_entries(v, names.drop_last(), a), names.last(), a, 0)
    }
}

/// All right sides are written the same.
pub open spec fn one_target(v: Seq<(Seq<char>, AstV)>) -> bool {
    forall|i: int| 1 <= i < v.len() ==> canon((#[trigger] v[i]).1) == canon(v[0].1)
}

/// Comparisons of the fields of `base`, all to hold.
pub open spec fn field_compares(base: AstV, v: Seq<(Seq<char>, AstV)>, op: CompareOp) -> AstV
    decreases v.len(),
{
    let last = AstV::Compare(
        Box::new(piped(base, AstV::Field(v.last().0))),
        op,
        Box::new(v.last().1),
    );
    if v.len() <= 1 {
        last
    } else {
        AstV::And(Box::new(field_compares(base, v.drop_last(), op)), Box::new(last))
    }
}

pub open spec fn entry_names(v: Seq<(Seq<char>, AstV)>) -> Seq<Seq<char>> {
    Seq::new(v.len(), |i: int| v[i].0)
}

/// A comparison of several fields.
pub open spec fn set_compare(base: AstV, v: Seq<(Seq<char>, AstV)>, op: CompareOp) -> Result<
    AstV,
    QueryFault,
> {
    if v.len() == 0 {
        Err(fault("empty field-set"@))
    } else if op == CompareOp::Eq && v.len() > 1 && one_target(v) {
        Ok(
            AstV::FieldSetEquals {
                base: Box::new(base),
                fields: entry_names(v),
                target: Box::new(v[0].1),
            },
        )
    } else {
        Ok(field_compares(base, v, op))
    }
}

/// One more alternative of `in`, or of `not in`.
pub open spec fn in_step(acc: Option<AstV>, l: AstV, r: AstV, negated: bool) -> AstV {
    let c = AstV::Compare(
        Box::new(l),
        if negated {
            CompareOp::Ne
        } else {
            CompareOp::Eq
        },
        Box::new(r),
    );
    match acc {
        None => c,
        Some(a) => if negated {
            AstV::And(Box::new(a), Box::new(c))
        } else {
            AstV::Or(Box::new(a), Box::new(c))
        },
    }
}

pub open spec fn negated_if(a: AstV, n: bool) -> AstV {
    if n {
        piped(a, AstV::Not)
    } else {
        a
    }
}

/// The test whether a nested query gives the value of `l`.
pub open spec fn member_test(q: AstV, l: AstV) -> AstV {
    AstV::Exists(
        Box::new(
            piped(
                AstV::Subquery { pipeline: Box::new(q) },
                AstV::Select(
                    Box::new(AstV::Compare(Box::new(AstV::Identity), CompareOp::Eq, Box::new(l))),
                ),
            ),
        ),
    )
}

pub open spec fn reducer_op(op: AggOp) -> ReducerOp {
    match op {
        AggOp::Sum => ReducerOp::Sum,
        AggOp::Count => ReducerOp::Count,
        AggOp::Avg => ReducerOp::Avg,
        AggOp::Min => ReducerOp::Min,
        AggOp::Max => ReducerOp::Max,
    }
}

pub open spec fn canon_opt(o: Option<Box<AstV>>) -> Seq<char> {
    match o {
        Some(a) => canon(*a),
        None => Seq::empty(),
    }
}

/// Two reductions that are written the same are one.
pub open spec fn same_reduction(
    r: AggReductionV,
    op: ReducerOp,
    value: Option<Box<AstV>>,
    cond: Option<Box<AstV>>,
) -> bool {
    r.op == op && canon_opt(r.value) + "|"@ + canon_opt(r.where_pred) == canon_opt(value) + "|"@
        + canon_opt(cond)
}

pub open spec fn reduction_place(
    v: Seq<AggReductionV>,
    op: ReducerOp,
    value: Option<Box<AstV>>,
    cond: Option<Box<AstV>>,
    i: int,
) -> Option<int>
    decreases v.len() - i,
{
    if !(0 <= i < v.len()) {
        None
    } else if same_reduction(v[i], op, value, cond) {
        Some(i)
    } else {
        reduction_place(v, op, value, cond, i + 1)
    }
}

/// The slot of a reduction, and the reductions with it.
pub open spec fn with_reduction(
    v: Seq<AggReductionV>,
    op: ReducerOp,
    value: Option<Box<AstV>>,
    cond: Option<Box<AstV>>,
    item: Seq<char>,
) -> (AstV, Seq<AggReductionV>) {
    match reduction_place(v, op, value, cond, 0) {
        Some(i) => (AstV::ReducerSlot(i as usize), v),
        None => (
            AstV::ReducerSlot(v.len() as usize),
            v.push(
                AggReductionV {
                    name: "__"@ + item + "_"@ + decimal_text(v.len()),
                    op,
                    value,
                    where_pred: cond,
                },
            ),
        ),
    }
}

/// The name of a group key: that of its last field, or its alias.
pub open spec fn key_label(e: ExprV) -> Option<Seq<char>> {
    match e {
        ExprV::Path(p) => if p.segments.len() == 0 {
            match p.root {
                PathRootV::Name(n) => Some(n),
                _ => None,
            }
        } else {
            match p.segments.last() {
                PathSegV::Field(n) => Some(n),
                _ => None,
            }
        },
        _ => None,
    }
}

pub open spec fn label_or(o: Option<Seq<char>>, d: Seq<char>) -> Seq<char> {
    match o {
        Some(n) => n,
        None => d,
    }
}

/// A path under the alias occurs in the expression.
#[verifier::opaque]
pub open spec fn refers(e: ExprV, a: Seq<char>) -> bool
    decreases e,
{
    match e {
        ExprV::Path(p) => p.root == PathRootV::Name(a),
        ExprV::Lit(_) => false,
        ExprV::Param(_) => false,
        ExprV::Array(v) => any_refers(v, a),
        ExprV::FieldSetCompare { base, rhs, .. } => base.root == PathRootV::Name(a) || refers(
            *rhs,
            a,
        ),
        ExprV::Compare(l, _, r) => refers(*l, a) || refers(*r, a),
        ExprV::In(l, r) => refers(*l, a) || refers(*r, a),
        ExprV::NotIn(l, r) => refers(*l, a) || refers(*r, a),
        ExprV::And(l, r) => refers(*l, a) || refers(*r, a),
        ExprV::Or(l, r) => refers(*l, a) || refers(*r, a),
        ExprV::Not(x) => refers(*x, a),
        ExprV::Exists(x) => refers(*x, a),
        ExprV::Neg(x) => refers(*x, a),
        ExprV::Binary { lhs, rhs, .. } => refers(*lhs, a) || refers(*rhs, a),
        ExprV::Reducer { arg, .. } => match arg {
            Some(x) => refers(*x, a),
            None => false,
        },
        ExprV::Object(f) => any_field_refers(f, a),
        ExprV::TypeTest { value, .. } => refers(*value, a),
        ExprV::Call(_, v) => any_refers(v, a),
        ExprV::If { cond, then_branch, else_branch } => refers(*cond, a) || refers(*then_branch, a)
            || refers(*else_branch, a),
        ExprV::Subquery(_) => false,
    }
}

#[verifier::opaque]
pub open spec fn any_refers(v: Seq<ExprV>, a: Seq<char>) -> bool
    decreases v,
{
    if v.len() == 0 {
        false
    } else {
        any_refers(v.drop_last(), a) || refers(v.last(), a)
    }
}

#[verifier::opaque]
pub open spec fn any_field_refers(v: Seq<ObjectFieldV>, a: Seq<char>) -> bool
    decreases v,
{
    if v.len() == 0 {
        false
    } else {
        any_field_refers(v.drop_last(), a) || refers(v.last().value, a) || (v.last().default matches Some(
            d,
        ) && refers(d, a))
    }
}

/// One equality, or several joined by `and`.
pub open spec fn is_equalities(e: ExprV) -> bool
    decreases e,
{
    match e {
        ExprV::Compare(_, op, _) => op == CompareOp::Eq,
        ExprV::And(l, r) => is_equalities(*l) && is_equalities(*r),
        _ => false,
    }
}

pub open spec fn not_equalities() -> QueryFault {
    fault(
        "join `on` predicate must be an equality `LEFT == RIGHT` or an `and`-chain of equalities"@,
    )
}

pub open spec fn both_sides(a: Seq<char>) -> QueryFault {
    fault(
        "join `on` predicate must split `"@ + a
            + ".field` against a prior-alias expression \u{2014} both sides reference `"@ + a
            + "`"@,
    )
}

pub open spec fn neither_side(a: Seq<char>) -> QueryFault {
    fault(
        "join `on` predicate must reference the new alias `"@ + a + "` on exactly one side"@,
    )
}

pub open spec fn duplicate_alias(a: Seq<char>) -> QueryFault {
    fault("duplicate alias `"@ + a + "`"@)
}

/// The keys of both sides of a join.
pub struct JoinKeysV {
    pub outer: Seq<AstV>,
    pub inner: Seq<AstV>,
}

/// A single key as it is, several as a tuple.
pub open spec fn key_ast(v: Seq<AstV>) -> AstV {
    if v.len() == 1 {
        v[0]
    } else {
        AstV::KeyTuple(v)
    }
}

pub open spec fn join_stage(j: JoinClauseV, k: JoinKeysV, source: AstV) -> AstV {
    let inner = key_ast(k.inner);
    AstV::JoinEach {
        alias: j.alias,
        outer_key: Box::new(key_ast(k.outer)),
        lookup: Box::new(
            AstV::Lookup {
                source: Box::new(source),
                key: Box::new(inner),
                source_canon: canon(source),
                key_canon: canon(inner),
            },
        ),
        inner: j.kind == JoinKind::Inner,
    }
}

/// The first thing wrong with the names of `let`.
pub open spec fn lets_fault(l: Seq<AliasLetV>, aliases: Seq<Seq<char>>, k: nat) -> Option<QueryFault>
    decreases k,
{
    if k == 0 {
        None
    } else {
        match lets_fault(l, aliases, (k - 1) as nat) {
            Some(e) => Some(e),
            None => {
                let n = l[k - 1].name;
                if aliases.contains(n) {
                    Some(
                        fault(
                            "alias `let "@ + n
                                + "` shadows a `from`/`join` alias of the same name"@,
                        ),
                    )
                } else if let_named(l.take(k - 1), n, 0) is Some {
                    Some(fault("duplicate alias `let "@ + n + "`"@))
                } else {
                    None
                }
            },
        }
    }
}

/// The stages so far, and the aliases that they bind.
pub struct StageV {
    pub ast: AstV,
    pub aliases: Seq<Seq<char>>,
}

pub open spec fn limited_ast(a: AstV, n: Option<u64>) -> AstV {
    match n {
        Some(k) => piped(a, AstV::Limit(k)),
        None => a,
    }
}

pub open spec fn distinct_ast(a: AstV, d: bool) -> AstV {
    if d {
        piped(a, AstV::Distinct)
    } else {
        a
    }
}

/// An expression.
#[verifier::opaque]
pub open spec fn lowered(e: ExprV, s: ScopeV) -> Result<AstV, QueryFault>
    decreases s.left, 0nat, s.lets.len(), e,
{
    match e {
        ExprV::Path(p) => match let_of(e, s) {
            Some(i) => {
                proof {
                    let_named_range(s.lets, p.root->Name_0, 0);
                }
                lowered(s.lets[i].expr, s.with_lets(s.lets.take(i)))
            },
            None => lowered_path(p, s),
        },
        ExprV::Lit(l) => Ok(lit_ast(l)),
        ExprV::Param(n) => match param_named(s.params, n, 0) {
            Some(v) => Ok(param_ast(v)),
            None => Err(fault("undefined query parameter `$"@ + n + "`"@)),
        },
        ExprV::Array(v) => match lowered_all(v, s) {
            Err(e) => Err(e),
            Ok(x) => Ok(AstV::ArrayLit(x)),
        },
        ExprV::FieldSetCompare { base, items, op, rhs } => match lowered_path(base, s) {
            Err(e) => Err(e),
            Ok(b) => match lowered(*rhs, s) {
                Err(e) => Err(e),
                Ok(r) => match lowered_items(items, r, s.plain()) {
                    Err(e) => Err(e),
                    Ok(v) => set_compare(b, v, op),
                },
            },
        },
        ExprV::Compare(l, op, r) => match lowered(*l, s) {
            Err(e) => Err(e),
            Ok(x) => match lowered(*r, s) {
                Err(e) => Err(e),
                Ok(y) => Ok(AstV::Compare(Box::new(x), op, Box::new(y))),
            },
        },
        ExprV::In(l, r) => lowered_in(lowered(*l, s), *r, false, s),
        ExprV::NotIn(l, r) => lowered_in(lowered(*l, s), *r, true, s),
        ExprV::Subquery(q) => match nested(*q, s) {
            Err(e) => Err(e),
            Ok(x) => Ok(AstV::Subquery { pipeline: Box::new(x) }),
        },
        ExprV::And(l, r) => match lowered(*l, s) {
            Err(e) => Err(e),
            Ok(x) => match lowered(*r, s) {
                Err(e) => Err(e),
                Ok(y) => Ok(AstV::And(Box::new(x), Box::new(y))),
            },
        },
        ExprV::Or(l, r) => match lowered(*l, s) {
            Err(e) => Err(e),
            Ok(x) => match lowered(*r, s) {
                Err(e) => Err(e),
                Ok(y) => Ok(AstV::Or(Box::new(x), Box::new(y))),
            },
        },
        ExprV::Not(x) => match lowered(*x, s) {
            Err(e) => Err(e),
            Ok(y) => Ok(piped(y, AstV::Not)),
        },
        ExprV::Exists(x) => match lowered(*x, s) {
            Err(e) => Err(e),
            Ok(y) => Ok(AstV::Exists(Box::new(y))),
        },
        ExprV::Binary { op, lhs, rhs } => match lowered(*lhs, s) {
            Err(e) => Err(e),
            Ok(x) => match lowered(*rhs, s) {
                Err(e) => Err(e),
                Ok(y) => Ok(AstV::Binary { op, lhs: Box::new(x), rhs: Box::new(y) }),
            },
        },
        ExprV::Neg(x) => match lowered(*x, s) {
            Err(e) => Err(e),
            Ok(y) => Ok(AstV::Neg(Box::new(y))),
        },
        ExprV::TypeTest { value, kind, negated } => match lowered(*value, s) {
            Err(e) => Err(e),
            Ok(y) => Ok(AstV::TypeTest { value: Box::new(y), kind, negated }),
        },
        ExprV::Call(n, v) => match lowered_all(v, s) {
            Err(e) => Err(e),
            Ok(x) => Ok(AstV::Call { name: n, args: x }),
        },
        ExprV::If { cond, then_branch, else_branch } => match lowered(*cond, s) {
            Err(e) => Err(e),
            Ok(x) => match lowered(*then_branch, s) {
                Err(e) => Err(e),
                Ok(y) => match lowered(*else_branch, s) {
                    Err(e) => Err(e),
                    Ok(z) => Ok(
                        AstV::If {
                            cond: Box::new(x),
                            then_branch: Box::new(y),
                            else_branch: Box::new(z),
                        },
                    ),
                },
            },
        },
        ExprV::Reducer { .. } => Err(
            fault(
                "reducer calls (sum/count/avg/min/max) are only valid inside an `aggregate { ... }` block item or an alias `let NAME = EXPR`"@,
            ),
        ),
        ExprV::Object(f) => match lowered_fields(f, s) {
            Err(e) => Err(e),
            Ok(x) => Ok(AstV::Object(x)),
        },
    }
}

#[verifier::opaque]
pub open spec fn lowered_all(v: Seq<ExprV>, s: ScopeV) -> Result<Seq<AstV>, QueryFault>
    decreases s.left, 0nat, s.lets.len(), v,
{
    if v.len() == 0 {
        Ok(Seq::empty())
    } else {
        match lowered_all(v.drop_last(), s) {
            Err(e) => Err(e),
            Ok(rest) => match lowered(v.last(), s) {
                Err(e) => Err(e),
                Ok(x) => Ok(rest.push(x)),
            },
        }
    }
}

#[verifier::opaque]
pub open spec fn lowered_fields(v: Seq<ObjectFieldV>, s: ScopeV) -> Result<
    Seq<(Seq<char>, AstV)>,
    QueryFault,
>
    decreases s.left, 0nat, s.lets.len(), v,
{
    if v.len() == 0 {
        Ok(Seq::empty())
    } else {
        match lowered_fields(v.drop_last(), s) {
            Err(e) => Err(e),
            Ok(rest) => if v.last().default is Some {
                Err(
                    fault(
                        "`??` default on an object-literal field is only supported inside an `aggregate { ... }` item"@,
                    ),
                )
            } else {
                match lowered(v.last().value, s) {
                    Err(e) => Err(e),
                    Ok(x) => Ok(rest.push((v.last().name, x))),
                }
            },
        }
    }
}

/// The fields of a comparison with their right sides.
#[verifier::opaque]
pub open spec fn lowered_items(v: Seq<FieldSetItemV>, rhs: AstV, s: ScopeV) -> Result<
    Seq<(Seq<char>, AstV)>,
    QueryFault,
>
    decreases s.left, 0nat, s.lets.len(), v,
{
    if v.len() == 0 {
        Ok(Seq::empty())
    } else {
        match lowered_items(v.drop_last(), rhs, s) {
            Err(e) => Err(e),
            Ok(rest) => match v.last() {
                FieldSetItemV::Field(n) => Ok(put_entry(rest, n, rhs, 0)),
                FieldSetItemV::Spread(n) => match set_named(s.sets, n, s.sets.len()) {
                    None => Err(fault("undefined `let` field set `"@ + n + "`"@)),
                    Some(f) => Ok(put_entries(rest, f, rhs)),
                },
                FieldSetItemV::Override(n, e) => match lowered(e, s) {
                    Err(e) => Err(e),
                    Ok(x) => Ok(put_entry(rest, n, x, 0)),
                },
            },
        }
    }
}

/// A nested query.
#[verifier::opaque]
pub open spec fn nested(q: QueryV, s: ScopeV) -> Result<AstV, QueryFault>
    decreases s.left, 0nat, s.lets.len(), q,
{
    if s.left == 0 {
        Err(fault("subqueries nest too deeply"@))
    } else {
        lowered_query(q, s.params, s.aliases, (s.left - 1) as nat)
    }
}

/// A membership test, given the left side.
#[verifier::opaque]
pub open spec fn lowered_in(l: Result<AstV, QueryFault>, r: ExprV, negated: bool, s: ScopeV) -> Result<
    AstV,
    QueryFault,
>
    decreases s.left, 0nat, s.lets.len(), r,
{
    match r {
        ExprV::Subquery(q) => match l {
            Err(e) => Err(e),
            Ok(x) => match nested(*q, s) {
                Err(e) => Err(e),
                Ok(y) => Ok(negated_if(member_test(y, x), negated)),
            },
        },
        ExprV::Array(v) => if v.len() == 0 {
            Ok(AstV::LitBool(negated))
        } else {
            match l {
                Err(e) => Err(e),
                Ok(x) => match in_chain(x, v, negated, s) {
                    Err(e) => Err(e),
                    Ok(c) => Ok(c->0),
                },
            }
        },
        _ => Err(fault("right-hand side of `in` must be an array literal or a subquery"@)),
    }
}

#[verifier::opaque]
pub open spec fn in_chain(l: AstV, v: Seq<ExprV>, negated: bool, s: ScopeV) -> Result<
    Option<AstV>,
    QueryFault,
>
    decreases s.left, 0nat, s.lets.len(), v,
{
    if v.len() == 0 {
        Ok(None)
    } else {
        match in_chain(l, v.drop_last(), negated, s) {
            Err(e) => Err(e),
            Ok(acc) => match lowered(v.last(), s) {
                Err(e) => Err(e),
                Ok(r) => Ok(Some(in_step(acc, l, r, negated))),
            },
        }
    }
}

/// The keys of a join. One side of each equality is under the new alias.
#[verifier::opaque]
pub open spec fn join_keys(e: ExprV, a: Seq<char>, s: ScopeV) -> Result<JoinKeysV, QueryFault>
    decreases s.left, 1nat, 0nat, e,
{
    match e {
        ExprV::Compare(l, _, r) => match (refers(*l, a), refers(*r, a)) {
            (true, true) => Err(both_sides(a)),
            (false, false) => Err(neither_side(a)),
            (true, false) => match lowered(*r, s) {
                Err(e) => Err(e),
                Ok(x) => match lowered(*l, s.stripping(a)) {
                    Err(e) => Err(e),
                    Ok(y) => Ok(JoinKeysV { outer: seq![x], inner: seq![y] }),
                },
            },
            (false, true) => match lowered(*l, s) {
                Err(e) => Err(e),
                Ok(x) => match lowered(*r, s.stripping(a)) {
                    Err(e) => Err(e),
                    Ok(y) => Ok(JoinKeysV { outer: seq![x], inner: seq![y] }),
                },
            },
        },
        ExprV::And(l, r) => match join_keys(*l, a, s) {
            Err(e) => Err(e),
            Ok(x) => match join_keys(*r, a, s) {
                Err(e) => Err(e),
                Ok(y) => Ok(
                    JoinKeysV { outer: x.outer + y.outer, inner: x.inner + y.inner },
                ),
            },
        },
        _ => Err(not_equalities()),
    }
}

#[verifier::opaque]
pub open spec fn lowered_join(j: JoinClauseV, s: ScopeV) -> Result<AstV, QueryFault>
    decreases s.left, 1nat, 0nat, j,
{
    if !is_equalities(j.on) {
        Err(not_equalities())
    } else {
        match join_keys(j.on, j.alias, s) {
            Err(e) => Err(e),
            Ok(k) => match lowered_path(j.path, s) {
                Err(e) => Err(e),
                Ok(source) => Ok(join_stage(j, k, source)),
            },
        }
    }
}

#[verifier::opaque]
pub open spec fn lowered_joins(v: Seq<JoinClauseV>, st: StageV, s: ScopeV) -> Result<
    StageV,
    QueryFault,
>
    decreases s.left, 3nat, 0nat, v,
{
    if v.len() == 0 {
        Ok(st)
    } else {
        match lowered_joins(v.drop_last(), st, s) {
            Err(e) => Err(e),
            Ok(t) => if t.aliases.contains(v.last().alias) {
                Err(duplicate_alias(v.last().alias))
            } else {
                match lowered_join(v.last(), s.with_aliases(t.aliases)) {
                    Err(e) => Err(e),
                    Ok(x) => Ok(
                        StageV {
                            ast: piped(t.ast, x),
                            aliases: t.aliases.push(v.last().alias),
                        },
                    ),
                }
            },
        }
    }
}

#[verifier::opaque]
pub open spec fn lowered_unnests(v: Seq<UnnestClauseV>, st: StageV, s: ScopeV) -> Result<
    StageV,
    QueryFault,
>
    decreases s.left, 3nat, 0nat, v,
{
    if v.len() == 0 {
        Ok(st)
    } else {
        match lowered_unnests(v.drop_last(), st, s) {
            Err(e) => Err(e),
            Ok(t) => if t.aliases.contains(v.last().alias) {
                Err(duplicate_alias(v.last().alias))
            } else {
                match lowered(v.last().expr, s.with_aliases(t.aliases)) {
                    Err(e) => Err(e),
                    Ok(x) => Ok(
                        StageV {
                            ast: piped(
                                t.ast,
                                AstV::UnnestEach { alias: v.last().alias, source: Box::new(x) },
                            ),
                            aliases: t.aliases.push(v.last().alias),
                        },
                    ),
                }
            },
        }
    }
}

#[verifier::opaque]
pub open spec fn lowered_where(o: Option<ExprV>, a: AstV, s: ScopeV) -> Result<AstV, QueryFault>
    decreases s.left, 1nat, 0nat, o,
{
    match o {
        None => Ok(a),
        Some(e) => match lowered(e, s) {
            Err(e) => Err(e),
            Ok(x) => Ok(piped(a, AstV::Select(Box::new(reordered(x))))),
        },
    }
}

/// An expression over reductions: each reduction becomes a slot.
#[verifier::opaque]
pub open spec fn lowered_output(
    e: ExprV,
    v: Seq<AggReductionV>,
    cond: Option<Box<AstV>>,
    item: Seq<char>,
    s: ScopeV,
) -> Result<(AstV, Seq<AggReductionV>), QueryFault>
    decreases s.left, 1nat, s.lets.len(), e,
{
    match e {
        ExprV::Path(p) => match let_of(e, s) {
            Some(i) => {
                proof {
                    let_named_range(s.lets, p.root->Name_0, 0);
                }
                lowered_output(s.lets[i].expr, v, cond, item, s.with_lets(s.lets.take(i)))
            },
            None => match lowered(e, s) {
                Err(e) => Err(e),
                Ok(x) => Ok((x, v)),
            },
        },
        ExprV::Reducer { op, arg } => match arg {
            None => Ok(with_reduction(v, reducer_op(op), None, cond, item)),
            Some(x) => match lowered(*x, s) {
                Err(e) => Err(e),
                Ok(y) => Ok(with_reduction(v, reducer_op(op), Some(Box::new(y)), cond, item)),
            },
        },
        ExprV::Binary { op, lhs, rhs } => match lowered_output(*lhs, v, cond, item, s) {
            Err(e) => Err(e),
            Ok(x) => match lowered_output(*rhs, x.1, cond, item, s) {
                Err(e) => Err(e),
                Ok(y) => Ok((AstV::Binary { op, lhs: Box::new(x.0), rhs: Box::new(y.0) }, y.1)),
            },
        },
        ExprV::Neg(x) => match lowered_output(*x, v, cond, item, s) {
            Err(e) => Err(e),
            Ok(y) => Ok((AstV::Neg(Box::new(y.0)), y.1)),
        },
        ExprV::Call(n, args) => match lowered_outputs(args, v, cond, item, s) {
            Err(e) => Err(e),
            Ok(x) => Ok((AstV::Call { name: n, args: x.0 }, x.1)),
        },
        ExprV::If { cond: test, then_branch, else_branch } => match lowered_output(
            *test,
            v,
            cond,
            item,
            s,
        ) {
            Err(e) => Err(e),
            Ok(x) => match lowered_output(*then_branch, x.1, cond, item, s) {
                Err(e) => Err(e),
                Ok(y) => match lowered_output(*else_branch, y.1, cond, item, s) {
                    Err(e) => Err(e),
                    Ok(z) => Ok(
                        (
                            AstV::If {
                                cond: Box::new(x.0),
                                then_branch: Box::new(y.0),
                                else_branch: Box::new(z.0),
                            },
                            z.1,
                        ),
                    ),
                },
            },
        },
        ExprV::Compare(l, op, r) => match lowered_output(*l, v, cond, item, s) {
            Err(e) => Err(e),
            Ok(x) => match lowered_output(*r, x.1, cond, item, s) {
                Err(e) => Err(e),
                Ok(y) => Ok((AstV::Compare(Box::new(x.0), op, Box::new(y.0)), y.1)),
            },
        },
        ExprV::And(l, r) => match lowered_output(*l, v, cond, item, s) {
            Err(e) => Err(e),
            Ok(x) => match lowered_output(*r, x.1, cond, item, s) {
                Err(e) => Err(e),
                Ok(y) => Ok((AstV::And(Box::new(x.0), Box::new(y.0)), y.1)),
            },
        },
        ExprV::Or(l, r) => match lowered_output(*l, v, cond, item, s) {
            Err(e) => Err(e),
            Ok(x) => match lowered_output(*r, x.1, cond, item, s) {
                Err(e) => Err(e),
                Ok(y) => Ok((AstV::Or(Box::new(x.0), Box::new(y.0)), y.1)),
            },
        },
        ExprV::Not(x) => match lowered_output(*x, v, cond, item, s) {
            Err(e) => Err(e),
            Ok(y) => Ok((piped(y.0, AstV::Not), y.1)),
        },
        _ => match lowered(e, s) {
            Err(e) => Err(e),
            Ok(x) => Ok((x, v)),
        },
    }
}

#[verifier::opaque]
pub open spec fn lowered_outputs(
    es: Seq<ExprV>,
    v: Seq<AggReductionV>,
    cond: Option<Box<AstV>>,
    item: Seq<char>,
    s: ScopeV,
) -> Result<(Seq<AstV>, Seq<AggReductionV>), QueryFault>
    decreases s.left, 1nat, s.lets.len(), es,
{
    if es.len() == 0 {
        Ok((Seq::empty(), v))
    } else {
        match lowered_outputs(es.drop_last(), v, cond, item, s) {
            Err(e) => Err(e),
            Ok(rest) => match lowered_output(es.last(), rest.1, cond, item, s) {
                Err(e) => Err(e),
                Ok(x) => Ok((rest.0.push(x.0), x.1)),
            },
        }
    }
}

/// An expression that stands by itself.
#[verifier::opaque]
pub open spec fn lowered_one(e: ExprV, s: ScopeV) -> Result<AstV, QueryFault>
    decreases s.left, 1nat, s.lets.len(), e,
{
    lowered(e, s)
}

/// An expression that may be missing.
#[verifier::opaque]
pub open spec fn lowered_opt(d: Option<ExprV>, s: ScopeV) -> Result<Option<Box<AstV>>, QueryFault>
    decreases s.left, 1nat, s.lets.len(), d,
{
    match d {
        None => Ok(None),
        Some(e) => match lowered_one(e, s) {
            Err(e) => Err(e),
            Ok(x) => Ok(Some(Box::new(x))),
        },
    }
}

/// An item of an aggregate block: an object of outputs, or one output with
/// its default. An object has no default of its own.
#[verifier::opaque]
pub open spec fn lowered_item(
    e: ExprV,
    default: Result<Option<Box<AstV>>, QueryFault>,
    v: Seq<AggReductionV>,
    cond: Option<Box<AstV>>,
    item: Seq<char>,
    s: ScopeV,
) -> Result<(AggOutputV, Seq<AggReductionV>), QueryFault>
    decreases s.left, 2nat, s.lets.len(), e,
{
    match e {
        ExprV::Object(f) => if default != Ok::<Option<Box<AstV>>, QueryFault>(None) {
            Err(
                fault(
                    "`??` default has no effect on an object-valued item \u{2014} attach it to a leaf inside the object instead"@,
                ),
            )
        } else {
            match lowered_item_fields(f, v, cond, item, s) {
                Err(e) => Err(e),
                Ok(x) => Ok((AggOutputV::Object(x.0), x.1)),
            }
        },
        _ => match let_of(e, s) {
            Some(i) => {
                proof {
                    let_named_range(s.lets, e->Path_0.root->Name_0, 0);
                }
                lowered_item(
                    s.lets[i].expr,
                    default,
                    v,
                    cond,
                    item,
                    s.with_lets(s.lets.take(i)),
                )
            },
            None => match lowered_output(e, v, cond, item, s) {
                Err(e) => Err(e),
                Ok(x) => match default {
                    Err(e) => Err(e),
                    Ok(d) => Ok((AggOutputV::Leaf { expr: Box::new(x.0), default: d }, x.1)),
                },
            },
        },
    }
}

#[verifier::opaque]
pub open spec fn lowered_item_fields(
    f: Seq<ObjectFieldV>,
    v: Seq<AggReductionV>,
    cond: Option<Box<AstV>>,
    item: Seq<char>,
    s: ScopeV,
) -> Result<(Seq<(Seq<char>, AggOutputV)>, Seq<AggReductionV>), QueryFault>
    decreases s.left, 2nat, s.lets.len(), f,
{
    if f.len() == 0 {
        Ok((Seq::empty(), v))
    } else {
        match lowered_item_fields(f.drop_last(), v, cond, item, s) {
            Err(e) => Err(e),
            Ok(rest) => match lowered_item(
                f.last().value,
                lowered_opt(f.last().default, s),
                rest.1,
                cond,
                item + "_"@ + f.last().name,
                s,
            ) {
                Err(e) => Err(e),
                Ok(x) => Ok((rest.0.push((f.last().name, x.0)), x.1)),
            },
        }
    }
}

/// The items of an aggregate block, and the reductions that they share.
#[verifier::opaque]
pub open spec fn lowered_block_items(v: Seq<AggBlockItemV>, s: ScopeV) -> Result<
    (Seq<(Seq<char>, AggOutputV)>, Seq<AggReductionV>),
    QueryFault,
>
    decreases s.left, 3nat, 0nat, v,
{
    if v.len() == 0 {
        Ok((Seq::empty(), Seq::empty()))
    } else {
        match lowered_block_items(v.drop_last(), s) {
            Err(e) => Err(e),
            Ok(rest) => match lowered_opt(v.last().where_pred, s) {
                Err(e) => Err(e),
                Ok(cond) => match lowered_item(
                    v.last().output,
                    lowered_opt(v.last().default, s),
                    rest.1,
                    cond,
                    v.last().name,
                    s,
                ) {
                    Err(e) => Err(e),
                    Ok(x) => Ok((rest.0.push((v.last().name, x.0)), x.1)),
                },
            },
        }
    }
}

/// The keys of a rollup with their names.
#[verifier::opaque]
pub open spec fn lowered_roll(v: Seq<ExprV>, s: ScopeV) -> Result<Seq<AggGroupKeyV>, QueryFault>
    decreases s.left, 1nat, s.lets.len(), v,
{
    if v.len() == 0 {
        Ok(Seq::empty())
    } else {
        match lowered_roll(v.drop_last(), s) {
            Err(e) => Err(e),
            Ok(rest) => match lowered(v.last(), s) {
                Err(e) => Err(e),
                Ok(x) => Ok(
                    rest.push(
                        AggGroupKeyV {
                            name: label_or(key_label(v.last()), "key"@ + decimal_text(v.len())),
                            key: Box::new(x),
                        },
                    ),
                ),
            },
        }
    }
}

/// How a block groups its rows.
#[verifier::opaque]
pub open spec fn lowered_groups(v: Seq<ExprV>, rollup: bool, s: ScopeV) -> Result<
    Option<AggGroupV>,
    QueryFault,
>
    decreases s.left, 2nat, s.lets.len(), v,
{
    if rollup {
        match lowered_roll(v, s) {
            Err(e) => Err(e),
            Ok(k) => Ok(Some(AggGroupV::Rollup(k))),
        }
    } else if v.len() == 0 {
        Ok(None)
    } else if v.len() == 1 {
        match lowered_one(v[0], s) {
            Err(e) => Err(e),
            Ok(x) => Ok(
                Some(
                    AggGroupV::Single {
                        name: label_or(key_label(v[0]), "key"@),
                        key: Box::new(x),
                    },
                ),
            ),
        }
    } else {
        match lowered_all(v, s) {
            Err(e) => Err(e),
            Ok(x) => Ok(
                Some(
                    AggGroupV::Single {
                        name: label_or(key_label(v[0]), "key"@),
                        key: Box::new(AstV::KeyTuple(x)),
                    },
                ),
            ),
        }
    }
}

#[verifier::opaque]
pub open spec fn lowered_block(b: AggregateBlockV, l: Seq<AliasLetV>, a: AstV, s: ScopeV) -> Result<
    AstV,
    QueryFault,
>
    decreases s.left, 4nat, 0nat, b,
{
    match lets_fault(l, s.aliases, l.len()) {
        Some(e) => Err(e),
        None => match lowered_groups(b.group_by, b.rollup, s) {
            Err(e) => Err(e),
            Ok(g) => match lowered_block_items(b.reductions, s.with_lets(l)) {
                Err(e) => Err(e),
                Ok(x) => Ok(
                    piped(
                        a,
                        AstV::AggregateBlock { group: g, reductions: x.1, outputs: x.0 },
                    ),
                ),
            },
        },
    }
}

#[verifier::opaque]
pub open spec fn lowered_aggregate(
    o: Option<AggregateClauseV>,
    l: Seq<AliasLetV>,
    a: AstV,
    s: ScopeV,
) -> Result<AstV, QueryFault>
    decreases s.left, 5nat, 0nat, o,
{
    if l.len() > 0 && !(o matches Some(AggregateClauseV::Block(_))) {
        Err(
            fault(
                "`let NAME = EXPR` (post-where) only applies to an `aggregate { ... }` clause"@,
            ),
        )
    } else {
        match o {
            None => Ok(a),
            Some(AggregateClauseV::Block(b)) => lowered_block(b, l, a, s),
            Some(AggregateClauseV::Group(g)) => match lowered(g.key, s) {
                Err(e) => Err(e),
                Ok(k) => Ok(piped(a, AstV::By(Box::new(AstV::Identity), Box::new(k)))),
            },
        }
    }
}

#[verifier::opaque]
pub open spec fn lowered_having(o: Option<ExprV>, grouped: bool, a: AstV, s: ScopeV) -> Result<
    AstV,
    QueryFault,
>
    decreases s.left, 1nat, 0nat, o,
{
    match o {
        None => Ok(a),
        Some(e) => if !grouped {
            Err(fault("`having` requires an `aggregate { ... }` clause"@))
        } else {
            match lowered(e, s) {
                Err(e) => Err(e),
                Ok(x) => Ok(piped(a, AstV::Select(Box::new(x)))),
            }
        },
    }
}

#[verifier::opaque]
pub open spec fn lowered_columns(v: Seq<(Seq<char>, ExprV)>, s: ScopeV) -> Result<
    Seq<(Seq<char>, AstV)>,
    QueryFault,
>
    decreases s.left, 1nat, 0nat, v,
{
    if v.len() == 0 {
        Ok(Seq::empty())
    } else {
        match lowered_columns(v.drop_last(), s) {
            Err(e) => Err(e),
            Ok(rest) => match lowered(v.last().1, s) {
                Err(e) => Err(e),
                Ok(x) => Ok(rest.push((v.last().0, x))),
            },
        }
    }
}

#[verifier::opaque]
pub open spec fn lowered_select(o: Option<Seq<(Seq<char>, ExprV)>>, a: AstV, s: ScopeV) -> Result<
    AstV,
    QueryFault,
>
    decreases s.left, 2nat, 0nat, o,
{
    match o {
        None => Ok(a),
        Some(v) => match lowered_columns(v, s) {
            Err(e) => Err(e),
            Ok(x) => Ok(piped(a, AstV::Project(x))),
        },
    }
}

#[verifier::opaque]
pub open spec fn lowered_keys(v: Seq<OrderKeyV>, s: ScopeV) -> Result<
    Seq<(AstV, SortDir)>,
    QueryFault,
>
    decreases s.left, 1nat, 0nat, v,
{
    if v.len() == 0 {
        Ok(Seq::empty())
    } else {
        match lowered_keys(v.drop_last(), s) {
            Err(e) => Err(e),
            Ok(rest) => match lowered(v.last().expr, s) {
                Err(e) => Err(e),
                Ok(x) => Ok(
                    rest.push(
                        (
                            x,
                            if v.last().desc {
                                SortDir::Desc
                            } else {
                                SortDir::Asc
                            },
                        ),
                    ),
                ),
            },
        }
    }
}

#[verifier::opaque]
pub open spec fn lowered_order(v: Seq<OrderKeyV>, a: AstV, s: ScopeV) -> Result<AstV, QueryFault>
    decreases s.left, 2nat, 0nat, v,
{
    if v.len() == 0 {
        Ok(a)
    } else {
        match lowered_keys(v, s) {
            Err(e) => Err(e),
            Ok(k) => Ok(piped(a, AstV::SortBy(k))),
        }
    }
}

/// The clauses after the rows are there.
#[verifier::opaque]
pub open spec fn lowered_rest(q: QueryV, a: AstV, s: ScopeV) -> Result<AstV, QueryFault>
    decreases s.left, 6nat, 0nat, q,
{
    match lowered_where(q.where_clause, a, s) {
        Err(e) => Err(e),
        Ok(x) => match lowered_aggregate(
            q.aggregate,
            q.alias_lets,
            distinct_ast(x, q.distinct),
            s,
        ) {
            Err(e) => Err(e),
            Ok(x) => match lowered_having(q.having, q.aggregate is Some, x, s) {
                Err(e) => Err(e),
                Ok(x) => match lowered_select(q.project, x, s) {
                    Err(e) => Err(e),
                    Ok(x) => match lowered_order(q.order_by, x, s) {
                        Err(e) => Err(e),
                        Ok(x) => Ok(limited_ast(x, q.limit)),
                    },
                },
            },
        },
    }
}

/// A query, with the aliases of the queries around it in scope.
#[verifier::opaque]
pub open spec fn lowered_query(
    q: QueryV,
    params: Seq<(Seq<char>, ParamV)>,
    aliases: Seq<Seq<char>>,
    left: nat,
) -> Result<AstV, QueryFault>
    decreases left, 7nat, 0nat, q,
{
    let s = ScopeV {
        aliases,
        sets: q.field_sets,
        params,
        lets: Seq::empty(),
        strip: None,
        left,
    };
    match lowered_path(q.source.path, s) {
        Err(e) => Err(e),
        Ok(source) => if aliases.contains(q.source.alias) {
            Err(duplicate_alias(q.source.alias))
        } else {
            let start = StageV {
                ast: piped(
                    AstV::Tap(Box::new(source)),
                    AstV::Let { name: q.source.alias, value: Box::new(AstV::Identity) },
                ),
                aliases: aliases.push(q.source.alias),
            };
            match lowered_joins(q.joins, start, s) {
                Err(e) => Err(e),
                Ok(t) => match lowered_unnests(q.unnests, t, s) {
                    Err(e) => Err(e),
                    Ok(t) => lowered_rest(q, t.ast, s.with_aliases(t.aliases)),
                },
            }
        },
    }
}

/// How deep queries may nest.
pub open spec fn nesting() -> nat {
    usize::MAX as nat
}

/// The lookup that a join lowers to is kept under the canonical forms of its
/// source and its key: those under which an index for it is registered.
#[verifier::spinoff_prover]
pub proof fn join_looks_up_canonical_forms(j: JoinClauseV, s: ScopeV)
    ensures
        match lowered_join(j, s) {
            Ok(AstV::JoinEach { alias, lookup, inner, .. }) => {
                &&& alias == j.alias
                &&& inner == (j.kind == JoinKind::Inner)
                &&& *lookup is Lookup
                &&& lowered_path(j.path, s) == Ok::<AstV, QueryFault>(*lookup->Lookup_source)
                &&& lookup->source_canon == canon(*lookup->Lookup_source)
                &&& lookup->key_canon == canon(*lookup->Lookup_key)
            },
            Ok(_) => false,
            Err(_) => true,
        },
{
    reveal(lowered_join);
}

} // verus!
