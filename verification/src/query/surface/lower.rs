//! Lowering: from a surface query to the engine's tree.
use vstd::prelude::*;

use super::super::ast::{
    field_views, group_key_views, key_views, opt_view, output_views, reduction_views, texts, views,
    AggGroup, AggGroupKey, AggGroupKeyV, AggGroupV, AggOutputNode, AggOutputV, AggReduction,
    AggReductionV, Ast, AstV, CompareOp, ReducerOp, SortDir,
};
use super::super::canonical::canon;
use super::super::{QueryError, QueryFault};
use super::ast::{
    agg_item_view, agg_item_views, aggregate_view, block_view, expr_view, expr_views,
    field_set_views, item_view, item_views, join_view, join_views, let_view, let_views, object_view,
    object_views, opt_aggregate_view, opt_expr_view, opt_select_view, order_view, order_views,
    path_view, query_view, seg_view, seg_views, select_views, source_view, unnest_view,
    unnest_views, AggBlockItem, AggOp, AggregateBlock, AggregateClause, AliasLet, Expr, ExprV,
    FieldSetDef, FieldSetItem, JoinClause, JoinKind, Lit, ObjectField, OrderKey, PathExpr, PathRoot,
    PathSeg, Query, UnnestClause,
};
use super::lowering::{
    any_field_refers, any_refers, both_sides, canon_opt, duplicate_alias, entry_names, fault,
    field_compares, in_chain, in_step, is_equalities, join_keys, join_stage, key_ast, key_label,
    label_or, let_named, let_of, lets_fault, lit_ast, lowered, lowered_aggregate, lowered_all,
    lowered_block, lowered_block_items, lowered_columns, lowered_fields, lowered_groups,
    lowered_having, lowered_in, lowered_item, lowered_item_fields, lowered_items, lowered_join,
    lowered_joins, lowered_keys, lowered_one, lowered_opt, lowered_order, lowered_output,
    lowered_outputs, lowered_path, lowered_query, lowered_rest, lowered_roll, lowered_select,
    lowered_unnests, lowered_where, nested, nesting, one_target, param_ast, param_named, piped,
    put_entries, put_entry, reducer_op, reduction_place, refers, set_named, stepped, with_reduction,
    JoinKeysV, ParamV, ScopeV, StageV,
};
use super::predicates::reorder_predicate_chain;
use crate::text::decimal;

verus! {

/// A value for a `$name` in a query. A number is given as it is written.
#[derive(Debug)]
pub enum ParamValue {
    Number(String),
    Str(String),
    Bool(bool),
    Null,
}

impl View for ParamValue {
    type V = ParamV;

    open spec fn view(&self) -> ParamV {
        match self {
            ParamValue::Number(t) => ParamV::Number(t@),
            ParamValue::Str(s) => ParamV::Str(s@),
            ParamValue::Bool(b) => ParamV::Bool(*b),
            ParamValue::Null => ParamV::Null,
        }
    }
}

pub open spec fn param_views(v: Seq<(String, ParamValue)>) -> Seq<(Seq<char>, ParamV)> {
    Seq::new(v.len(), |i: int| (v[i].0@, v[i].1@))
}

/// What is known where an expression stands. Of the `let` names the first
/// `let_count` count.
#[derive(Clone, Copy)]
pub struct Scope<'a> {
    pub aliases: &'a Vec<String>,
    pub sets: &'a Vec<FieldSetDef>,
    pub params: &'a Vec<(String, ParamValue)>,
    pub lets: &'a Vec<AliasLet>,
    pub let_count: usize,
    pub strip: Option<&'a str>,
    pub left: usize,
}

impl<'a> Scope<'a> {
    pub open spec fn view(self) -> ScopeV {
        ScopeV {
            aliases: texts(self.aliases@),
            sets: field_set_views(self.sets@),
            params: param_views(self.params@),
            lets: let_views(self.lets@).take(self.let_count as int),
            strip: match self.strip {
                Some(a) => Some(a@),
                None => None,
            },
            left: self.left as nat,
        }
    }

    pub open spec fn wf(self) -> bool {
        self.let_count <= self.lets@.len()
    }

    /// With the first `n` of its `let` names.
    fn with_lets(self, n: usize) -> (s: Scope<'a>)
        requires
            self.wf(),
            n <= self.let_count,
        ensures
            s.wf(),
            s@ == self@.with_lets(self@.lets.take(n as int)),
            s.let_count == n,
            s.left == self.left,
    {
        proof {
            reveal(let_views);
        }
        let s = Scope { let_count: n, ..self };
        assert(s@.lets =~= self@.lets.take(n as int));
        s
    }

    fn plain(self) -> (s: Scope<'a>)
        requires
            self.wf(),
        ensures
            s.wf(),
            s@ == self@.plain(),
            s.let_count == 0,
            s.left == self.left,
    {
        let s = Scope { let_count: 0, strip: None, ..self };
        assert(s@.lets =~= Seq::empty());
        s
    }

    fn stripping(self, a: &'a str) -> (s: Scope<'a>)
        requires
            self.wf(),
        ensures
            s.wf(),
            s@ == self@.stripping(a@),
            s.let_count == self.let_count,
            s.left == self.left,
    {
        Scope { strip: Some(a), ..self }
    }

    fn with_aliases(self, a: &'a Vec<String>) -> (s: Scope<'a>)
        requires
            self.wf(),
        ensures
            s.wf(),
            s@ == self@.with_aliases(texts(a@)),
            s.lets == self.lets,
            s.let_count == self.let_count,
            s.left == self.left,
    {
        Scope { aliases: a, ..self }
    }
}

/// A result in mathematical form.
pub open spec fn outcome(r: Result<Ast, QueryError>) -> Result<AstV, QueryFault> {
    match r {
        Ok(a) => Ok(a@),
        Err(e) => Err(e@),
    }
}

pub open spec fn outcomes(r: Result<Vec<Ast>, QueryError>) -> Result<Seq<AstV>, QueryFault> {
    match r {
        Ok(v) => Ok(views(v@)),
        Err(e) => Err(e@),
    }
}

pub open spec fn named_outcomes(r: Result<Vec<(String, Ast)>, QueryError>) -> Result<
    Seq<(Seq<char>, AstV)>,
    QueryFault,
> {
    match r {
        Ok(v) => Ok(field_views(v@)),
        Err(e) => Err(e@),
    }
}

pub open spec fn opt_outcome(r: Result<Option<Box<Ast>>, QueryError>) -> Result<
    Option<Box<AstV>>,
    QueryFault,
> {
    match r {
        Ok(o) => Ok(opt_view(o)),
        Err(e) => Err(e@),
    }
}

/// Gives up a list where it broke.
fn settle<T>(v: T, err: Option<QueryError>) -> (r: Result<T, QueryError>)
    ensures
        r == match err {
            Some(e) => Err::<T, QueryError>(e),
            None => Ok::<T, QueryError>(v),
        },
{
    match err {
        Some(e) => Err(e),
        None => Ok(v),
    }
}

fn error(m: &str) -> (e: QueryError)
    ensures
        e@ == fault(m@),
{
    QueryError::at(0, m)
}

/// An error that names something.
fn naming(a: &str, n: &str, b: &str) -> (e: QueryError)
    ensures
        e@ == fault(a@ + n@ + b@),
{
    let mut m = a.to_owned();
    m.append(n);
    m.append(b);
    QueryError::new(0, m)
}

fn has_name(v: &Vec<String>, n: &str) -> (b: bool)
    ensures
        b == texts(v@).contains(n@),
{
    let ghost all = texts(v@);
    let mut i: usize = 0;
    while i < v.len()
        invariant
            i <= v@.len(),
            all == texts(v@),
            forall|k: int| 0 <= k < i ==> #[trigger] all[k] != n@,
        decreases v@.len() - i,
    {
        assert(all[i as int] == v@[i as int]@);
        if *v[i].as_str() == *n {
            assert(all[i as int] == n@);
            return true;
        }
        i += 1;
    }
    false
}

fn copy_names(v: &Vec<String>) -> (out: Vec<String>)
    ensures
        texts(out@) == texts(v@),
{
    let mut out: Vec<String> = Vec::new();
    let mut i: usize = 0;
    while i < v.len()
        invariant
            i <= v@.len(),
            out@.len() == i,
            forall|k: int| 0 <= k < i ==> (#[trigger] out@[k])@ == v@[k]@,
        decreases v@.len() - i,
    {
        out.push(v[i].clone());
        i += 1;
    }
    assert(texts(out@) =~= texts(v@));
    out
}

fn with_name(v: &Vec<String>, n: &str) -> (out: Vec<String>)
    ensures
        texts(out@) == texts(v@).push(n@),
{
    let mut out = copy_names(v);
    let ghost before = texts(out@);
    out.push(n.to_owned());
    assert(texts(out@) =~= before.push(n@));
    out
}

/// A stage after another.
pub fn pipe(l: Ast, r: Ast) -> (a: Ast)
    ensures
        a@ == piped(l@, r@),
{
    if let Ast::Identity = l {
        return r;
    }
    let ghost lv = l@;
    let ghost rv = r@;
    match r {
        Ast::Field(n) => match l {
            Ast::Descend => {
                assert(lv == AstV::Descend);
                Ast::DescendField(n)
            },
            Ast::Iterate => {
                assert(lv == AstV::Iterate);
                Ast::IterateField(n)
            },
            Ast::Pipe(a, b) => {
                assert(rv == AstV::Field(n@));
                assert(lv == AstV::Pipe(Box::new(a@), Box::new(b@)));
                match *b {
                    Ast::Descend => {
                        assert(b@ == AstV::Descend);
                        let d = Ast::DescendField(n);
                        assert(d@ == AstV::DescendField(rv->Field_0));
                        Ast::Pipe(a, Box::new(d))
                    },
                    Ast::Iterate => {
                        assert(b@ == AstV::Iterate);
                        let d = Ast::IterateField(n);
                        assert(d@ == AstV::IterateField(rv->Field_0));
                        Ast::Pipe(a, Box::new(d))
                    },
                    other => {
                        assert(b@ == other@);
                        assert(!(b@ is Descend) && !(b@ is Iterate));
                        let l = Ast::Pipe(a, Box::new(other));
                        assert(l@ == lv);
                        let f = Ast::Field(n);
                        assert(f@ == rv);
                        Ast::Pipe(Box::new(l), Box::new(f))
                    },
                }
            },
            l => {
                assert(!(lv is Descend) && !(lv is Iterate) && !(lv is Pipe));
                let f = Ast::Field(n);
                assert(f@ == rv);
                Ast::Pipe(Box::new(l), Box::new(f))
            },
        },
        r => {
            assert(!(rv is Field));
            Ast::Pipe(Box::new(l), Box::new(r))
        },
    }
}

fn lower_lit(l: &Lit) -> (a: Ast)
    ensures
        a@ == lit_ast(l@),
{
    match l {
        Lit::Number(t) => Ast::LitNumber(t.clone()),
        Lit::Str(s) => Ast::LitString(s.clone()),
        Lit::Bool(b) => Ast::LitBool(*b),
        Lit::Null => Ast::LitNull,
    }
}

fn param_to_ast(v: &ParamValue) -> (a: Ast)
    ensures
        a@ == param_ast(v@),
{
    match v {
        ParamValue::Number(t) => Ast::LitNumber(t.clone()),
        ParamValue::Str(s) => Ast::LitString(s.clone()),
        ParamValue::Bool(b) => Ast::LitBool(*b),
        ParamValue::Null => Ast::LitNull,
    }
}

fn lower_param(n: &str, s: &Scope) -> (r: Result<Ast, QueryError>)
    ensures
        outcome(r) == match param_named(s@.params, n@, 0) {
            Some(v) => Ok(param_ast(v)),
            None => Err(fault("undefined query parameter `$"@ + n@ + "`"@)),
        },
{
    let ghost all = s@.params;
    let mut i: usize = 0;
    while i < s.params.len()
        invariant
            i <= s.params@.len(),
            all == param_views(s.params@),
            all == s@.params,
            param_named(all, n@, 0) == param_named(all, n@, i as int),
        decreases s.params@.len() - i,
    {
        if *s.params[i].0.as_str() == *n {
            return Ok(param_to_ast(&s.params[i].1));
        }
        i += 1;
    }
    Err(naming("undefined query parameter `$", n, "`"))
}

/// What a `let` holds.
#[verifier::spinoff_prover]
proof fn let_entry(s: Scope, i: int)
    requires
        s.wf(),
        0 <= i < s.let_count,
    ensures
        s@.lets[i].name == s.lets@[i].name@,
        s@.lets[i].expr == s.lets@[i].expr@,
{
    reveal(let_views);
    reveal(let_view);
    reveal(expr_view);
}

#[verifier::spinoff_prover]
proof fn let_size(s: Scope)
    requires
        s.wf(),
    ensures
        s@.lets.len() == s.let_count,
{
    reveal(let_views);
    reveal(let_view);
}

fn find_let_named(n: &str, s: &Scope) -> (r: Option<usize>)
    requires
        s.wf(),
    ensures
        match let_named(s@.lets, n@, 0) {
            Some(i) => r matches Some(k) && k == i && k < s.let_count,
            None => r is None,
        },
{
    let ghost all = s@.lets;
    proof {
        let_size(*s);
    }
    let mut i: usize = 0;
    while i < s.let_count
        invariant
            s.wf(),
            i <= s.let_count,
            all == s@.lets,
            all.len() == s.let_count,
            let_named(all, n@, 0) == let_named(all, n@, i as int),
        decreases s.let_count - i,
    {
        proof {
            let_entry(*s, i as int);
        }
        if *s.lets[i].name.as_str() == *n {
            return Some(i);
        }
        i += 1;
    }
    None
}

/// The place of the `let` that an expression is the name of.
#[verifier::spinoff_prover]
fn find_let(e: &Expr, s: &Scope) -> (r: Option<usize>)
    requires
        s.wf(),
    ensures
        match let_of(e@, s@) {
            Some(i) => r matches Some(k) && k == i && k < s.let_count,
            None => r is None,
        },
{
    proof {
        reveal(expr_view);
        reveal(path_view);
        reveal(seg_views);
        reveal(seg_view);
    }
    match e {
        Expr::Path(p) => {
            assert(e@ == ExprV::Path(path_view(*p)));
            assert(seg_views(p.segments@).len() == p.segments@.len());
            match &p.root {
                PathRoot::Name(n) => {
                    if p.segments.len() == 0 {
                        find_let_named(n.as_str(), s)
                    } else {
                        None
                    }
                },
                PathRoot::Identity => None,
            }
        },
        _ => None,
    }
}

fn lower_segments(root: Ast, v: &Vec<PathSeg>) -> (r: Result<Ast, QueryError>)
    ensures
        outcome(r) == stepped(root@, seg_views(v@)),
{
    proof {
        reveal(seg_views);
    }
    let ghost all = seg_views(v@);
    let ghost start = root@;
    let mut acc = root;
    let mut err: Option<QueryError> = None;
    let mut i: usize = 0;
    assert(all.take(0) =~= Seq::empty());
    while i < v.len()
        invariant
            i <= v@.len(),
            all == seg_views(v@),
            all.len() == v@.len(),
            stepped(start, all.take(i as int)) == match err {
                Some(e) => Err::<AstV, QueryFault>(e@),
                None => Ok(acc@),
            },
        decreases v@.len() - i,
    {
        proof {
            reveal(seg_views);
            reveal(seg_view);
            let next = all.take(i + 1);
            assert(next.drop_last() =~= all.take(i as int));
            assert(next.last() == all[i as int]);
            assert(all[i as int] == v@[i as int]@);
        }
        if err.is_none() {
            match &v[i] {
                PathSeg::Field(n) => {
                    acc = pipe(acc, Ast::Field(n.clone()));
                },
                PathSeg::Index(k) => {
                    acc = pipe(acc, Ast::Index(*k));
                },
                PathSeg::Iterate => {
                    acc = pipe(acc, Ast::Iterate);
                },
                PathSeg::StarStar => {
                    acc = pipe(acc, Ast::Descend);
                },
                PathSeg::FieldSet(_) => {
                    err = Some(error("field-set is only legal as the LHS of a comparison"));
                },
            }
        }
        i += 1;
    }
    assert(all.take(i as int) =~= all);
    settle(acc, err)
}

fn lower_path(p: &PathExpr, s: &Scope) -> (r: Result<Ast, QueryError>)
    ensures
        outcome(r) == lowered_path(p@, s@),
{
    proof {
        reveal(path_view);
        reveal(seg_views);
    }
    match &p.root {
        PathRoot::Identity => lower_segments(Ast::Identity, &p.segments),
        PathRoot::Name(n) => {
            if let Some(a) = s.strip {
                if *a == *n.as_str() {
                    return lower_segments(Ast::Identity, &p.segments);
                }
            }
            if !has_name(s.aliases, n.as_str()) {
                return Err(naming("undefined alias `", n.as_str(), "`"));
            }
            lower_segments(Ast::Var(n.clone()), &p.segments)
        },
    }
}

fn put_field(v: Vec<(String, Ast)>, n: &str, a: Ast) -> (out: Vec<(String, Ast)>)
    ensures
        field_views(out@) == put_entry(field_views(v@), n@, a@, 0),
{
    let ghost all = field_views(v@);
    let ghost av = a@;
    let mut kept = v;
    let mut i: usize = 0;
    while i < kept.len()
        invariant
            i <= kept@.len(),
            all == field_views(kept@),
            all == field_views(v@),
            all.len() == kept@.len(),
            av == a@,
            put_entry(all, n@, av, 0) == put_entry(all, n@, av, i as int),
        decreases kept@.len() - i,
    {
        assert(all[i as int].0 == kept@[i as int].0@);
        if *kept[i].0.as_str() == *n {
            let entry = (n.to_owned(), a);
            kept.set(i, entry);
            assert(field_views(kept@) =~= all.update(i as int, (n@, av)));
            return kept;
        }
        i += 1;
    }
    kept.push((n.to_owned(), a));
    assert(field_views(kept@) =~= all.push((n@, av)));
    kept
}

fn find_set<'a>(s: &Scope<'a>, n: &str) -> (r: Option<&'a Vec<String>>)
    ensures
        match set_named(s@.sets, n@, s@.sets.len()) {
            Some(f) => r matches Some(x) && texts(x@) == f,
            None => r is None,
        },
{
    proof {
        reveal(field_set_views);
    }
    let ghost all = s@.sets;
    let mut k: usize = s.sets.len();
    while k > 0
        invariant
            k <= s.sets@.len(),
            all == s@.sets,
            all == field_set_views(s.sets@),
            set_named(all, n@, all.len()) == set_named(all, n@, k as nat),
        decreases k,
    {
        proof {
            reveal(field_set_views);
            assert(all[k - 1] == s.sets@[k - 1]@);
        }
        if *s.sets[k - 1].name.as_str() == *n {
            return Some(&s.sets[k - 1].fields);
        }
        k -= 1;
    }
    None
}

/// Whether all right sides are written the same.
fn same_targets(v: &Vec<(String, Ast)>) -> (b: bool)
    requires
        v@.len() > 0,
    ensures
        b == one_target(field_views(v@)),
{
    let ghost all = field_views(v@);
    let head = v[0].1.canonical();
    assert(all[0].1 == v@[0].1@);
    let mut i: usize = 1;
    while i < v.len()
        invariant
            1 <= i <= v@.len(),
            all == field_views(v@),
            head@ == canon(all[0].1),
            forall|k: int| 1 <= k < i ==> canon((#[trigger] all[k]).1) == canon(all[0].1),
        decreases v@.len() - i,
    {
        assert(all[i as int].1 == v@[i as int].1@);
        let here = v[i].1.canonical();
        if *here.as_str() != *head.as_str() {
            assert(canon(all[i as int].1) != canon(all[0].1));
            return false;
        }
        i += 1;
    }
    true
}

/// Lowers expressions.
#[verifier::spinoff_prover]
fn lower_all(v: &Vec<Expr>, s: &Scope) -> (r: Result<Vec<Ast>, QueryError>)
    requires
        s.wf(),
    ensures
        outcomes(r) == lowered_all(expr_views(v@), s@),
        r matches Ok(o) ==> o@.len() == v@.len(),
    decreases s.left, 0nat, s.let_count, v, 0nat,
{
    proof {
        reveal(lowered_all);
        reveal(lowered);
        reveal(expr_views);
    }
    let ghost all = expr_views(v@);
    let mut out: Vec<Ast> = Vec::new();
    let mut err: Option<QueryError> = None;
    let mut i: usize = 0;
    proof {
        assert(all.take(0) =~= Seq::empty());
        assert(views(out@) =~= Seq::empty());
    }
    while i < v.len()
        invariant
            s.wf(),
            i <= v@.len(),
            all == expr_views(v@),
            all.len() == v@.len(),
            err is None ==> out@.len() == i,
            lowered_all(all.take(i as int), s@) == outcomes(
                match err {
                    Some(e) => Err(e),
                    None => Ok(out),
                },
            ),
        decreases v@.len() - i,
    {
        proof {
            reveal(lowered_all);
            reveal(lowered);
            reveal(expr_views);
            reveal(expr_view);
            let next = all.take(i + 1);
            assert(next.drop_last() =~= all.take(i as int));
            assert(next.last() == all[i as int]);
            assert(all[i as int] == expr_view(v@[i as int]));
            assert(decreases_to!(v => v@[i as int]));
        }
        if err.is_none() {
            let ghost before = views(out@);
            match lower_expr(&v[i], s) {
                Ok(x) => {
                    let ghost added = x@;
                    out.push(x);
                    assert(views(out@) =~= before.push(added));
                },
                Err(e) => {
                    err = Some(e);
                },
            }
        }
        i += 1;
    }
    assert(all.take(i as int) =~= all);
    settle(out, err)
}

/// Lowers the fields of an object.
#[verifier::spinoff_prover]
fn lower_fields(v: &Vec<ObjectField>, s: &Scope) -> (r: Result<Vec<(String, Ast)>, QueryError>)
    requires
        s.wf(),
    ensures
        named_outcomes(r) == lowered_fields(object_views(v@), s@),
        r matches Ok(o) ==> o@.len() == v@.len(),
    decreases s.left, 0nat, s.let_count, v, 0nat,
{
    proof {
        reveal(lowered_fields);
        reveal(lowered);
        reveal(object_views);
    }
    let ghost all = object_views(v@);
    let mut out: Vec<(String, Ast)> = Vec::new();
    let mut err: Option<QueryError> = None;
    let mut i: usize = 0;
    proof {
        assert(all.take(0) =~= Seq::empty());
        assert(field_views(out@) =~= Seq::empty());
    }
    while i < v.len()
        invariant
            s.wf(),
            i <= v@.len(),
            all == object_views(v@),
            all.len() == v@.len(),
            err is None ==> out@.len() == i,
            lowered_fields(all.take(i as int), s@) == named_outcomes(
                match err {
                    Some(e) => Err(e),
                    None => Ok(out),
                },
            ),
        decreases v@.len() - i,
    {
        proof {
            reveal(lowered_fields);
            reveal(lowered);
            reveal(object_views);
            reveal(object_view);
            let next = all.take(i + 1);
            assert(next.drop_last() =~= all.take(i as int));
            assert(next.last() == all[i as int]);
            assert(all[i as int] == object_view(v@[i as int]));
            assert(decreases_to!(v => v@[i as int]));
        }
        if err.is_none() {
            let ghost before = field_views(out@);
            proof {
                reveal(opt_expr_view);
            }
            if v[i].default.is_some() {
                err = Some(
                    error(
                        "`??` default on an object-literal field is only supported inside an `aggregate { ... }` item",
                    ),
                );
            } else {
                match lower_expr(&v[i].value, s) {
                    Ok(x) => {
                        let ghost added = (v@[i as int].name@, x@);
                        out.push((v[i].name.clone(), x));
                        assert(field_views(out@) =~= before.push(added));
                    },
                    Err(e) => {
                        err = Some(e);
                    },
                }
            }
        }
        i += 1;
    }
    assert(all.take(i as int) =~= all);
    settle(out, err)
}

/// Lowers the columns of `select`.
#[verifier::spinoff_prover]
fn lower_columns(v: &Vec<(String, Expr)>, s: &Scope) -> (r: Result<Vec<(String, Ast)>, QueryError>)
    requires
        s.wf(),
    ensures
        named_outcomes(r) == lowered_columns(select_views(v@), s@),
        r matches Ok(o) ==> o@.len() == v@.len(),
    decreases s.left, 1nat, 0nat, v, 0nat,
{
    proof {
        reveal(lowered_columns);
        reveal(lowered);
        reveal(select_views);
    }
    let ghost all = select_views(v@);
    let mut out: Vec<(String, Ast)> = Vec::new();
    let mut err: Option<QueryError> = None;
    let mut i: usize = 0;
    proof {
        assert(all.take(0) =~= Seq::empty());
        assert(field_views(out@) =~= Seq::empty());
    }
    while i < v.len()
        invariant
            s.wf(),
            i <= v@.len(),
            all == select_views(v@),
            all.len() == v@.len(),
            err is None ==> out@.len() == i,
            lowered_columns(all.take(i as int), s@) == named_outcomes(
                match err {
                    Some(e) => Err(e),
                    None => Ok(out),
                },
            ),
        decreases v@.len() - i,
    {
        proof {
            reveal(lowered_columns);
            reveal(lowered);
            reveal(select_views);
            let next = all.take(i + 1);
            assert(next.drop_last() =~= all.take(i as int));
            assert(next.last() == all[i as int]);
            assert(all[i as int] == (v@[i as int].0@, expr_view(v@[i as int].1)));
            assert(decreases_to!(v => v@[i as int]));
        }
        if err.is_none() {
            let ghost before = field_views(out@);
            match lower_expr(&v[i].1, s) {
                Ok(x) => {
                    let ghost added = (v@[i as int].0@, x@);
                    out.push((v[i].0.clone(), x));
                    assert(field_views(out@) =~= before.push(added));
                },
                Err(e) => {
                    err = Some(e);
                },
            }
        }
        i += 1;
    }
    assert(all.take(i as int) =~= all);
    settle(out, err)
}

pub open spec fn key_outcomes(r: Result<Vec<(Ast, SortDir)>, QueryError>) -> Result<
    Seq<(AstV, SortDir)>,
    QueryFault,
> {
    match r {
        Ok(v) => Ok(key_views(v@)),
        Err(e) => Err(e@),
    }
}

pub open spec fn roll_outcomes(r: Result<Vec<AggGroupKey>, QueryError>) -> Result<
    Seq<AggGroupKeyV>,
    QueryFault,
> {
    match r {
        Ok(v) => Ok(group_key_views(v@)),
        Err(e) => Err(e@),
    }
}

/// Lowers sort keys.
#[verifier::spinoff_prover]
fn lower_keys(v: &Vec<OrderKey>, s: &Scope) -> (r: Result<Vec<(Ast, SortDir)>, QueryError>)
    requires
        s.wf(),
    ensures
        key_outcomes(r) == lowered_keys(order_views(v@), s@),
        r matches Ok(o) ==> o@.len() == v@.len(),
    decreases s.left, 1nat, 0nat, v, 0nat,
{
    proof {
        reveal(lowered_keys);
        reveal(lowered);
        reveal(order_views);
    }
    let ghost all = order_views(v@);
    let mut out: Vec<(Ast, SortDir)> = Vec::new();
    let mut err: Option<QueryError> = None;
    let mut i: usize = 0;
    proof {
        assert(all.take(0) =~= Seq::empty());
        assert(key_views(out@) =~= Seq::empty());
    }
    while i < v.len()
        invariant
            s.wf(),
            i <= v@.len(),
            all == order_views(v@),
            all.len() == v@.len(),
            err is None ==> out@.len() == i,
            lowered_keys(all.take(i as int), s@) == key_outcomes(
                match err {
                    Some(e) => Err(e),
                    None => Ok(out),
                },
            ),
        decreases v@.len() - i,
    {
        proof {
            reveal(lowered_keys);
            reveal(lowered);
            reveal(order_views);
            reveal(order_view);
            let next = all.take(i + 1);
            assert(next.drop_last() =~= all.take(i as int));
            assert(next.last() == all[i as int]);
            assert(all[i as int] == order_view(v@[i as int]));
            assert(decreases_to!(v => v@[i as int]));
        }
        if err.is_none() {
            let ghost before = key_views(out@);
            match lower_expr(&v[i].expr, s) {
                Ok(x) => {
                    let dir = if v[i].desc {
                        SortDir::Desc
                    } else {
                        SortDir::Asc
                    };
                    let ghost added = (x@, dir);
                    out.push((x, dir));
                    assert(key_views(out@) =~= before.push(added));
                },
                Err(e) => {
                    err = Some(e);
                },
            }
        }
        i += 1;
    }
    assert(all.take(i as int) =~= all);
    settle(out, err)
}

/// Lowers the keys of a rollup.
#[verifier::spinoff_prover]
fn lower_roll(v: &Vec<Expr>, s: &Scope) -> (r: Result<Vec<AggGroupKey>, QueryError>)
    requires
        s.wf(),
    ensures
        roll_outcomes(r) == lowered_roll(expr_views(v@), s@),
        r matches Ok(o) ==> o@.len() == v@.len(),
    decreases s.left, 1nat, s.let_count, v, 0nat,
{
    proof {
        reveal(lowered_roll);
        reveal(lowered);
        reveal(expr_views);
    }
    let ghost all = expr_views(v@);
    let mut out: Vec<AggGroupKey> = Vec::new();
    let mut err: Option<QueryError> = None;
    let mut i: usize = 0;
    proof {
        assert(all.take(0) =~= Seq::empty());
        assert(group_key_views(out@) =~= Seq::empty());
    }
    while i < v.len()
        invariant
            s.wf(),
            i <= v@.len(),
            all == expr_views(v@),
            all.len() == v@.len(),
            err is None ==> out@.len() == i,
            lowered_roll(all.take(i as int), s@) == roll_outcomes(
                match err {
                    Some(e) => Err(e),
                    None => Ok(out),
                },
            ),
        decreases v@.len() - i,
    {
        proof {
            reveal(lowered_roll);
            reveal(lowered);
            reveal(expr_views);
            reveal(expr_view);
            let next = all.take(i + 1);
            assert(next.drop_last() =~= all.take(i as int));
            assert(next.last() == all[i as int]);
            assert(all[i as int] == expr_view(v@[i as int]));
            assert(decreases_to!(v => v@[i as int]));
        }
        if err.is_none() {
            let ghost before = group_key_views(out@);
            match lower_expr(&v[i], s) {
                Ok(x) => {
                    let mut spare = "key".to_owned();
                    let place = decimal(i as u64 + 1);
                    spare.append(place.as_str());
                    let name = match group_key_label(&v[i]) {
                        Some(n) => n,
                        None => spare,
                    };
                    let ghost added = AggGroupKeyV { name: name@, key: Box::new(x@) };
                    out.push(AggGroupKey { name, key: Box::new(x) });
                    assert(group_key_views(out@) =~= before.push(added));
                },
                Err(e) => {
                    err = Some(e);
                },
            }
        }
        i += 1;
    }
    assert(all.take(i as int) =~= all);
    settle(out, err)
}

/// The name of a group key.
#[verifier::spinoff_prover]
fn group_key_label(e: &Expr) -> (r: Option<String>)
    ensures
        match key_label(e@) {
            Some(n) => r matches Some(x) && x@ == n,
            None => r is None,
        },
{
    proof {
        reveal(expr_view);
        reveal(path_view);
        reveal(seg_views);
        reveal(seg_view);
        reveal(item_views);
    }
    match e {
        Expr::Path(p) => {
            assert(e@ == ExprV::Path(path_view(*p)));
            let ghost all = seg_views(p.segments@);
            assert(all.len() == p.segments@.len());
            if p.segments.len() == 0 {
                match &p.root {
                    PathRoot::Name(n) => Some(n.clone()),
                    _ => None,
                }
            } else {
                assert(all.last() == seg_view(p.segments@[p.segments@.len() - 1]));
                match &p.segments[p.segments.len() - 1] {
                    PathSeg::Field(n) => Some(n.clone()),
                    _ => None,
                }
            }
        },
        _ => None,
    }
}

/// Adds fields with the same right side, which is lowered anew for each.
#[verifier::spinoff_prover]
fn put_fields(v: Vec<(String, Ast)>, names: &Vec<String>, rhs: &Expr, s: &Scope) -> (out: Vec<
    (String, Ast),
>)
    requires
        s.wf(),
        lowered(rhs@, s@) is Ok,
    ensures
        field_views(out@) == put_entries(
            field_views(v@),
            texts(names@),
            lowered(rhs@, s@)->Ok_0,
        ),
    decreases s.left, 0nat, s.let_count, rhs, 3nat,
{
    let ghost a = lowered(rhs@, s@)->Ok_0;
    let ghost start = field_views(v@);
    let ghost all = texts(names@);
    let mut out = v;
    let mut i: usize = 0;
    assert(all.take(0) =~= Seq::empty());
    while i < names.len()
        invariant
            s.wf(),
            lowered(rhs@, s@) == Ok::<AstV, QueryFault>(a),
            i <= names@.len(),
            all == texts(names@),
            field_views(out@) == put_entries(start, all.take(i as int), a),
        decreases names@.len() - i,
    {
        proof {
            let next = all.take(i + 1);
            assert(next.drop_last() =~= all.take(i as int));
            assert(next.last() == names@[i as int]@);
        }
        if let Ok(x) = lower_expr(rhs, s) {
            out = put_field(out, names[i].as_str(), x);
        }
        i += 1;
    }
    assert(all.take(i as int) =~= all);
    out
}

/// Lowers the fields of a comparison; each takes `rhs` but for those with a
/// right side of their own.
#[verifier::spinoff_prover]
fn lower_items(e: &Expr, s: &Scope) -> (r: Result<Vec<(String, Ast)>, QueryError>)
    requires
        s.wf(),
        e is FieldSetCompare,
        lowered(e->FieldSetCompare_rhs@, s@) is Ok,
    ensures
        named_outcomes(r) == lowered_items(
            item_views(e->items@),
            lowered(e->FieldSetCompare_rhs@, s@)->Ok_0,
            s@.plain(),
        ),
    decreases s.left, 0nat, s.let_count, e, 0nat,
{
    proof {
        reveal(lowered_items);
        reveal(lowered);
        reveal(item_views);
    }
    let mut out: Vec<(String, Ast)> = Vec::new();
    let mut err: Option<QueryError> = None;
    if let Expr::FieldSetCompare { items, rhs, .. } = e {
        let v = items;
        let p = s.plain();
        let ghost a = lowered(rhs@, s@)->Ok_0;
        let ghost all = item_views(v@);
        let mut i: usize = 0;
        proof {
            assert(all.take(0) =~= Seq::empty());
            assert(field_views(out@) =~= Seq::empty());
        }
        while i < v.len()
            invariant
                s.wf(),
                p.wf(),
                p@ == s@.plain(),
                p.let_count == 0,
                p.left == s.left,
                decreases_to!(e => v),
                decreases_to!(e => rhs),
                lowered(rhs@, s@) == Ok::<AstV, QueryFault>(a),
                i <= v@.len(),
                all == item_views(v@),
                all.len() == v@.len(),
                lowered_items(all.take(i as int), a, p@) == named_outcomes(
                    match err {
                        Some(e) => Err(e),
                        None => Ok(out),
                    },
                ),
            decreases v@.len() - i,
        {
            proof {
                reveal(lowered_items);
                reveal(lowered);
                reveal(item_views);
                reveal(item_view);
                let next = all.take(i + 1);
                assert(next.drop_last() =~= all.take(i as int));
                assert(next.last() == all[i as int]);
                assert(all[i as int] == item_view(v@[i as int]));
                assert(decreases_to!(v => v@[i as int]));
            }
            if err.is_none() {
                match &v[i] {
                    FieldSetItem::Field(n) => {
                        if let Ok(x) = lower_expr(rhs, s) {
                            out = put_field(out, n.as_str(), x);
                        }
                    },
                    FieldSetItem::Spread(n) => match find_set(&p, n.as_str()) {
                        Some(names) => {
                            out = put_fields(out, names, rhs, s);
                        },
                        None => {
                            err = Some(naming("undefined `let` field set `", n.as_str(), "`"));
                        },
                    },
                    FieldSetItem::Override(n, x) => match lower_expr(x, &p) {
                        Ok(y) => {
                            out = put_field(out, n.as_str(), y);
                        },
                        Err(f) => {
                            err = Some(f);
                        },
                    },
                }
            }
            i += 1;
        }
        assert(all.take(i as int) =~= all);
    }
    settle(out, err)
}

/// Comparisons of fields, all to hold. The path to the fields is lowered
/// anew for each.
#[verifier::spinoff_prover]
fn compare_fields(base: &PathExpr, s: &Scope, v: Vec<(String, Ast)>, op: CompareOp) -> (r: Ast)
    requires
        lowered_path(base@, s@) is Ok,
        v@.len() > 0,
    ensures
        r@ == field_compares(lowered_path(base@, s@)->Ok_0, field_views(v@), op),
    decreases v@.len(),
{
    let ghost b = lowered_path(base@, s@)->Ok_0;
    let ghost all = field_views(v@);
    let mut v = v;
    match v.pop() {
        Some(entry) => {
            assert(all.last() == (entry.0@, entry.1@));
            assert(field_views(v@) =~= all.drop_last());
            match lower_path(base, s) {
                Ok(x) => {
                    let left = pipe(x, Ast::Field(entry.0));
                    let last = Ast::Compare(Box::new(left), op, Box::new(entry.1));
                    assert(last@ == AstV::Compare(
                        Box::new(piped(b, AstV::Field(all.last().0))),
                        op,
                        Box::new(all.last().1),
                    ));
                    if v.len() == 0 {
                        last
                    } else {
                        Ast::And(Box::new(compare_fields(base, s, v, op)), Box::new(last))
                    }
                },
                Err(_) => Ast::LitNull,
            }
        },
        None => Ast::LitNull,
    }
}

fn names_in(v: &Vec<(String, Ast)>) -> (out: Vec<String>)
    ensures
        texts(out@) == entry_names(field_views(v@)),
{
    let ghost all = entry_names(field_views(v@));
    let mut out: Vec<String> = Vec::new();
    let mut i: usize = 0;
    while i < v.len()
        invariant
            i <= v@.len(),
            all == entry_names(field_views(v@)),
            all.len() == v@.len(),
            out@.len() == i,
            forall|k: int| 0 <= k < i ==> (#[trigger] out@[k])@ == all[k],
        decreases v@.len() - i,
    {
        assert(all[i as int] == v@[i as int].0@);
        out.push(v[i].0.clone());
        i += 1;
    }
    assert(texts(out@) =~= all);
    out
}

/// A comparison of several fields.
#[verifier::spinoff_prover]
fn lower_field_set_compare(e: &Expr, s: &Scope) -> (r: Result<Ast, QueryError>)
    requires
        s.wf(),
        e is FieldSetCompare,
    ensures
        outcome(r) == lowered(e@, s@),
    decreases s.left, 0nat, s.let_count, e, 1nat,
{
    proof {
        reveal(lowered);
        reveal(lowered_items);
        reveal(expr_view);
        reveal(path_view);
        reveal(item_views);
    }
    match e {
        Expr::FieldSetCompare { base, items, op, rhs } => {
            let b = match lower_path(base, s) {
                Ok(b) => b,
                Err(f) => {
                    return Err(f);
                },
            };
            if let Err(f) = lower_expr(rhs, s) {
                return Err(f);
            }
            let v = match lower_items(e, s) {
                Ok(v) => v,
                Err(f) => {
                    return Err(f);
                },
            };
            let ghost all = field_views(v@);
            assert(all.len() == v@.len());
            if v.len() == 0 {
                return Err(error("empty field-set"));
            }
            if *op == CompareOp::Eq && v.len() > 1 && same_targets(&v) {
                let fields = names_in(&v);
                let mut v = v;
                assert(all[0] == (v@[0].0@, v@[0].1@));
                let target = v.swap_remove(0).1;
                return Ok(
                    Ast::FieldSetEquals { base: Box::new(b), fields, target: Box::new(target) },
                );
            }
            Ok(compare_fields(base, s, v, *op))
        },
        _ => Ok(Ast::LitNull),
    }
}

/// A nested query.
#[verifier::spinoff_prover]
fn lower_nested(q: &Query, s: &Scope) -> (r: Result<Ast, QueryError>)
    requires
        s.wf(),
    ensures
        outcome(r) == nested(q@, s@),
    decreases s.left, 0nat, s.let_count, q, 0nat,
{
    proof {
        reveal(nested);
        reveal(lowered_query);
    }
    if s.left == 0 {
        Err(error("subqueries nest too deeply"))
    } else {
        lower_query_scoped(q, s.params, s.aliases, s.left - 1)
    }
}

pub open spec fn acc_view(a: Option<Ast>) -> Option<AstV> {
    match a {
        Some(x) => Some(x@),
        None => None,
    }
}

/// Membership tests of the value of `l`, which is lowered anew for each.
#[verifier::spinoff_prover]
fn lower_in_chain(l: &Expr, v: &Vec<Expr>, negated: bool, s: &Scope, e: &Expr) -> (r: Result<
    Ast,
    QueryError,
>)
    requires
        s.wf(),
        v@.len() > 0,
        lowered(l@, s@) is Ok,
        decreases_to!(e => l),
        decreases_to!(e => v),
    ensures
        outcome(r) == match in_chain(lowered(l@, s@)->Ok_0, expr_views(v@), negated, s@) {
            Err(f) => Err::<AstV, QueryFault>(f),
            Ok(c) => Ok(c->0),
        },
    decreases s.left, 0nat, s.let_count, e, 0nat,
{
    proof {
        reveal(in_chain);
        reveal(lowered);
        reveal(expr_views);
    }
    let ghost lv = lowered(l@, s@)->Ok_0;
    let ghost all = expr_views(v@);
    let mut acc: Option<Ast> = None;
    let mut err: Option<QueryError> = None;
    let mut i: usize = 0;
    assert(all.take(0) =~= Seq::empty());
    while i < v.len()
        invariant
            s.wf(),
            decreases_to!(e => l),
            decreases_to!(e => v),
            lowered(l@, s@) == Ok::<AstV, QueryFault>(lv),
            i <= v@.len(),
            all == expr_views(v@),
            all.len() == v@.len(),
            err is None ==> (acc is Some <==> i > 0),
            in_chain(lv, all.take(i as int), negated, s@) == match err {
                Some(f) => Err::<Option<AstV>, QueryFault>(f@),
                None => Ok(acc_view(acc)),
            },
        decreases v@.len() - i,
    {
        proof {
            reveal(in_chain);
            reveal(lowered);
            reveal(expr_views);
            let next = all.take(i + 1);
            assert(next.drop_last() =~= all.take(i as int));
            assert(next.last() == all[i as int]);
            assert(all[i as int] == expr_view(v@[i as int]));
            assert(decreases_to!(v => v@[i as int]));
        }
        if err.is_none() {
            match lower_expr(&v[i], s) {
                Ok(r) => {
                    if let Ok(x) = lower_expr(l, s) {
                        let op = if negated {
                            CompareOp::Ne
                        } else {
                            CompareOp::Eq
                        };
                        let ghost prev = acc_view(acc);
                        let ghost rv = r@;
                        let c = Ast::Compare(Box::new(x), op, Box::new(r));
                        assert(c@ == AstV::Compare(Box::new(lv), op, Box::new(rv)));
                        acc = Some(
                            match acc {
                                None => c,
                                Some(a) => {
                                    if negated {
                                        Ast::And(Box::new(a), Box::new(c))
                                    } else {
                                        Ast::Or(Box::new(a), Box::new(c))
                                    }
                                },
                            },
                        );
                        assert(acc->0@ == in_step(prev, lv, rv, negated));
                    }
                },
                Err(f) => {
                    err = Some(f);
                },
            }
        }
        i += 1;
    }
    assert(all.take(i as int) =~= all);
    match err {
        Some(f) => Err(f),
        None => match acc {
            Some(a) => Ok(a),
            None => Ok(Ast::LitNull),
        },
    }
}

/// A membership test.
#[verifier::spinoff_prover]
fn lower_in(l: &Expr, r: &Expr, negated: bool, s: &Scope, e: &Expr) -> (out: Result<Ast, QueryError>)
    requires
        s.wf(),
        decreases_to!(e => l),
        decreases_to!(e => r),
    ensures
        outcome(out) == lowered_in(lowered(l@, s@), r@, negated, s@),
    decreases s.left, 0nat, s.let_count, e, 1nat,
{
    proof {
        reveal(lowered_in);
        reveal(in_chain);
        reveal(nested);
        reveal(expr_view);
        reveal(expr_views);
    }
    match r {
        Expr::Subquery(q) => {
            let x = match lower_expr(l, s) {
                Ok(x) => x,
                Err(f) => {
                    return Err(f);
                },
            };
            assert(decreases_to!(r => q));
            match lower_nested(q, s) {
                Ok(y) => {
                    let here = Ast::Identity;
                    assert(here@ == AstV::Identity);
                    let same = Ast::Compare(Box::new(here), CompareOp::Eq, Box::new(x));
                    let ghost xv = lowered(l@, s@)->Ok_0;
                    assert(same@ == AstV::Compare(
                        Box::new(AstV::Identity),
                        CompareOp::Eq,
                        Box::new(xv),
                    ));
                    let test = Ast::Select(Box::new(same));
                    let whole = Ast::Subquery { pipeline: Box::new(y) };
                    assert(test@ == AstV::Select(
                        Box::new(
                            AstV::Compare(
                                Box::new(AstV::Identity),
                                CompareOp::Eq,
                                Box::new(xv),
                            ),
                        ),
                    ));
                    let member = pipe(whole, test);
                    let found = Ast::Exists(Box::new(member));
                    if negated {
                        Ok(pipe(found, Ast::Not))
                    } else {
                        Ok(found)
                    }
                },
                Err(f) => Err(f),
            }
        },
        Expr::Array(v) => {
            assert(expr_views(v@).len() == v@.len());
            if v.len() == 0 {
                return Ok(Ast::LitBool(negated));
            }
            if let Err(f) = lower_expr(l, s) {
                return Err(f);
            }
            assert(decreases_to!(r => v));
            lower_in_chain(l, v, negated, s, e)
        },
        _ => Err(error("right-hand side of `in` must be an array literal or a subquery")),
    }
}

/// Expressions of two parts.
#[verifier::spinoff_prover]
fn lower_pair(e: &Expr, s: &Scope) -> (r: Result<Ast, QueryError>)
    requires
        s.wf(),
        e is Compare || e is And || e is Or || e is Binary,
    ensures
        outcome(r) == lowered(e@, s@),
    decreases s.left, 0nat, s.let_count, e, 1nat,
{
    proof {
        lowered_pair(e, s@);
        reveal(expr_view);
    }
    match e {
        Expr::Compare(l, op, r) => {
            let x = match lower_expr(l, s) {
                Ok(x) => x,
                Err(e) => {
                    return Err(e);
                },
            };
            match lower_expr(r, s) {
                Ok(y) => Ok(Ast::Compare(Box::new(x), *op, Box::new(y))),
                Err(e) => Err(e),
            }
        },
        Expr::And(l, r) => {
            let x = match lower_expr(l, s) {
                Ok(x) => x,
                Err(e) => {
                    return Err(e);
                },
            };
            match lower_expr(r, s) {
                Ok(y) => Ok(Ast::And(Box::new(x), Box::new(y))),
                Err(e) => Err(e),
            }
        },
        Expr::Or(l, r) => {
            let x = match lower_expr(l, s) {
                Ok(x) => x,
                Err(e) => {
                    return Err(e);
                },
            };
            match lower_expr(r, s) {
                Ok(y) => Ok(Ast::Or(Box::new(x), Box::new(y))),
                Err(e) => Err(e),
            }
        },
        Expr::Binary { op, lhs, rhs } => {
            let x = match lower_expr(lhs, s) {
                Ok(x) => x,
                Err(e) => {
                    return Err(e);
                },
            };
            match lower_expr(rhs, s) {
                Ok(y) => Ok(Ast::Binary { op: *op, lhs: Box::new(x), rhs: Box::new(y) }),
                Err(e) => Err(e),
            }
        },
        _ => Ok(Ast::LitNull),
    }
}

/// What expressions of two parts lower to.
#[verifier::spinoff_prover]
proof fn lowered_pair(e: &Expr, s: ScopeV)
    ensures
        match *e {
            Expr::Compare(l, op, r) => lowered(e@, s) == match (lowered(l@, s), lowered(r@, s)) {
                (Err(f), _) => Err(f),
                (_, Err(f)) => Err(f),
                (Ok(x), Ok(y)) => Ok(AstV::Compare(Box::new(x), op, Box::new(y))),
            },
            Expr::And(l, r) => lowered(e@, s) == match (lowered(l@, s), lowered(r@, s)) {
                (Err(f), _) => Err(f),
                (_, Err(f)) => Err(f),
                (Ok(x), Ok(y)) => Ok(AstV::And(Box::new(x), Box::new(y))),
            },
            Expr::Or(l, r) => lowered(e@, s) == match (lowered(l@, s), lowered(r@, s)) {
                (Err(f), _) => Err(f),
                (_, Err(f)) => Err(f),
                (Ok(x), Ok(y)) => Ok(AstV::Or(Box::new(x), Box::new(y))),
            },
            Expr::Binary { op, lhs, rhs } => lowered(e@, s) == match (
                lowered(lhs@, s),
                lowered(rhs@, s),
            ) {
                (Err(f), _) => Err(f),
                (_, Err(f)) => Err(f),
                (Ok(x), Ok(y)) => Ok(AstV::Binary { op, lhs: Box::new(x), rhs: Box::new(y) }),
            },
            _ => true,
        },
{
    reveal(lowered);
    reveal(expr_view);
}

/// Expressions of one part, and conditionals.
#[verifier::spinoff_prover]
fn lower_single(e: &Expr, s: &Scope) -> (r: Result<Ast, QueryError>)
    requires
        s.wf(),
        e is Not || e is Exists || e is Neg || e is TypeTest || e is If,
    ensures
        outcome(r) == lowered(e@, s@),
    decreases s.left, 0nat, s.let_count, e, 1nat,
{
    proof {
        reveal(lowered);
        reveal(expr_view);
    }
    match e {
        Expr::Not(x) => match lower_expr(x, s) {
            Ok(y) => Ok(pipe(y, Ast::Not)),
            Err(e) => Err(e),
        },
        Expr::Exists(x) => match lower_expr(x, s) {
            Ok(y) => Ok(Ast::Exists(Box::new(y))),
            Err(e) => Err(e),
        },
        Expr::Neg(x) => match lower_expr(x, s) {
            Ok(y) => Ok(Ast::Neg(Box::new(y))),
            Err(e) => Err(e),
        },
        Expr::TypeTest { value, kind, negated } => match lower_expr(value, s) {
            Ok(y) => Ok(Ast::TypeTest { value: Box::new(y), kind: *kind, negated: *negated }),
            Err(e) => Err(e),
        },
        Expr::If { cond, then_branch, else_branch } => {
            let x = match lower_expr(cond, s) {
                Ok(x) => x,
                Err(f) => {
                    return Err(f);
                },
            };
            let y = match lower_expr(then_branch, s) {
                Ok(y) => y,
                Err(f) => {
                    return Err(f);
                },
            };
            match lower_expr(else_branch, s) {
                Ok(z) => Ok(
                    Ast::If {
                        cond: Box::new(x),
                        then_branch: Box::new(y),
                        else_branch: Box::new(z),
                    },
                ),
                Err(f) => Err(f),
            }
        },
        _ => Ok(Ast::LitNull),
    }
}

/// Lowers an expression.
#[verifier::spinoff_prover]
fn lower_expr(e: &Expr, s: &Scope) -> (r: Result<Ast, QueryError>)
    requires
        s.wf(),
    ensures
        outcome(r) == lowered(e@, s@),
    decreases s.left, 0nat, s.let_count, e, 2nat,
{
    proof {
        reveal(lowered);
        reveal(lowered_all);
        reveal(lowered_fields);
        reveal(lowered_in);
        reveal(nested);
        reveal(expr_view);
    }
    match e {
        Expr::Path(p) => match find_let(e, s) {
            Some(i) => {
                proof {
                    let_entry(*s, i as int);
                    let_size(*s);
                }
                lower_expr(&s.lets[i].expr, &s.with_lets(i))
            },
            None => lower_path(p, s),
        },
        Expr::Lit(l) => Ok(lower_lit(l)),
        Expr::Param(n) => lower_param(n.as_str(), s),
        Expr::Array(v) => match lower_all(v, s) {
            Ok(x) => Ok(Ast::ArrayLit(x)),
            Err(f) => Err(f),
        },
        Expr::FieldSetCompare { .. } => lower_field_set_compare(e, s),
        Expr::In(l, r) => {
            assert(decreases_to!(e => l));
            assert(decreases_to!(e => r));
            lower_in(l, r, false, s, e)
        },
        Expr::NotIn(l, r) => {
            assert(decreases_to!(e => l));
            assert(decreases_to!(e => r));
            lower_in(l, r, true, s, e)
        },
        Expr::Subquery(q) => match lower_nested(q, s) {
            Ok(x) => Ok(Ast::Subquery { pipeline: Box::new(x) }),
            Err(f) => Err(f),
        },
        Expr::Call(n, v) => match lower_all(v, s) {
            Ok(x) => Ok(Ast::Call { name: n.clone(), args: x }),
            Err(f) => Err(f),
        },
        Expr::Object(v) => match lower_fields(v, s) {
            Ok(x) => Ok(Ast::Object(x)),
            Err(f) => Err(f),
        },
        Expr::Reducer { .. } => Err(
            error(
                "reducer calls (sum/count/avg/min/max) are only valid inside an `aggregate { ... }` block item or an alias `let NAME = EXPR`",
            ),
        ),
        Expr::Compare(..) | Expr::And(..) | Expr::Or(..) | Expr::Binary { .. } => lower_pair(e, s),
        Expr::Not(_)
        | Expr::Exists(_)
        | Expr::Neg(_)
        | Expr::TypeTest { .. }
        | Expr::If { .. } => lower_single(e, s),
    }
}

/// Whether a path under the alias occurs in an expression.
#[verifier::spinoff_prover]
fn references_alias(e: &Expr, a: &str) -> (b: bool)
    ensures
        b == refers(e@, a@),
    decreases e, 0nat,
{
    proof {
        reveal(refers);
        reveal(any_refers);
        reveal(any_field_refers);
        reveal(expr_view);
        reveal(path_view);
    }
    match e {
        Expr::Path(p) => is_under(p, a),
        Expr::Lit(_) => false,
        Expr::Param(_) => false,
        Expr::Array(v) => any_references(v, a),
        Expr::FieldSetCompare { base, rhs, .. } => is_under(base, a) || references_alias(rhs, a),
        Expr::Compare(l, _, r) => references_alias(l, a) || references_alias(r, a),
        Expr::In(l, r) => references_alias(l, a) || references_alias(r, a),
        Expr::NotIn(l, r) => references_alias(l, a) || references_alias(r, a),
        Expr::And(l, r) => references_alias(l, a) || references_alias(r, a),
        Expr::Or(l, r) => references_alias(l, a) || references_alias(r, a),
        Expr::Not(x) => references_alias(x, a),
        Expr::Exists(x) => references_alias(x, a),
        Expr::Neg(x) => references_alias(x, a),
        Expr::Binary { lhs, rhs, .. } => references_alias(lhs, a) || references_alias(rhs, a),
        Expr::Reducer { arg, .. } => match arg {
            Some(x) => references_alias(x, a),
            None => false,
        },
        Expr::Object(f) => any_field_references(f, a),
        Expr::TypeTest { value, .. } => references_alias(value, a),
        Expr::Call(_, v) => any_references(v, a),
        Expr::If { cond, then_branch, else_branch } => references_alias(cond, a)
            || references_alias(then_branch, a) || references_alias(else_branch, a),
        Expr::Subquery(_) => false,
    }
}

#[verifier::spinoff_prover]
fn is_under(p: &PathExpr, a: &str) -> (b: bool)
    ensures
        b == (p@.root == super::ast::PathRootV::Name(a@)),
{
    proof {
        reveal(path_view);
    }
    match &p.root {
        PathRoot::Name(n) => *n.as_str() == *a,
        PathRoot::Identity => false,
    }
}

#[verifier::spinoff_prover]
fn any_references(v: &Vec<Expr>, a: &str) -> (b: bool)
    ensures
        b == any_refers(expr_views(v@), a@),
    decreases v, 0nat,
{
    proof {
        reveal(any_refers);
        reveal(refers);
        reveal(expr_views);
    }
    let ghost all = expr_views(v@);
    let mut b = false;
    let mut i: usize = 0;
    assert(all.take(0) =~= Seq::empty());
    while i < v.len()
        invariant
            i <= v@.len(),
            all == expr_views(v@),
            all.len() == v@.len(),
            b == any_refers(all.take(i as int), a@),
        decreases v@.len() - i,
    {
        proof {
            reveal(any_refers);
            reveal(refers);
            reveal(expr_views);
            let next = all.take(i + 1);
            assert(next.drop_last() =~= all.take(i as int));
            assert(next.last() == all[i as int]);
            assert(all[i as int] == expr_view(v@[i as int]));
            assert(decreases_to!(v => v@[i as int]));
        }
        b = b || references_alias(&v[i], a);
        i += 1;
    }
    assert(all.take(i as int) =~= all);
    b
}

#[verifier::spinoff_prover]
fn any_field_references(v: &Vec<ObjectField>, a: &str) -> (b: bool)
    ensures
        b == any_field_refers(object_views(v@), a@),
    decreases v, 0nat,
{
    proof {
        reveal(any_field_refers);
        reveal(refers);
        reveal(object_views);
    }
    let ghost all = object_views(v@);
    let mut b = false;
    let mut i: usize = 0;
    assert(all.take(0) =~= Seq::empty());
    while i < v.len()
        invariant
            i <= v@.len(),
            all == object_views(v@),
            all.len() == v@.len(),
            b == any_field_refers(all.take(i as int), a@),
        decreases v@.len() - i,
    {
        proof {
            reveal(any_field_refers);
            reveal(refers);
            reveal(object_views);
            reveal(object_view);
            reveal(opt_expr_view);
            let next = all.take(i + 1);
            assert(next.drop_last() =~= all.take(i as int));
            assert(next.last() == all[i as int]);
            assert(all[i as int] == object_view(v@[i as int]));
            assert(decreases_to!(v => v@[i as int]));
        }
        let here = references_alias(&v[i].value, a) || match &v[i].default {
            Some(d) => references_alias(d, a),
            None => false,
        };
        b = b || here;
        i += 1;
    }
    assert(all.take(i as int) =~= all);
    b
}

/// Whether a condition is one equality, or several joined by `and`.
#[verifier::spinoff_prover]
fn only_equalities(e: &Expr) -> (b: bool)
    ensures
        b == is_equalities(e@),
    decreases e,
{
    proof {
        reveal(expr_view);
    }
    match e {
        Expr::Compare(_, op, _) => *op == CompareOp::Eq,
        Expr::And(l, r) => {
            assert(e@ == ExprV::And(Box::new(l@), Box::new(r@)));
            only_equalities(l) && only_equalities(r)
        },
        _ => false,
    }
}

/// The keys of both sides of a join.
pub struct JoinKeys {
    pub outer: Vec<Ast>,
    pub inner: Vec<Ast>,
}

impl View for JoinKeys {
    type V = JoinKeysV;

    open spec fn view(&self) -> JoinKeysV {
        JoinKeysV { outer: views(self.outer@), inner: views(self.inner@) }
    }
}

pub open spec fn keys_outcome(r: Result<JoinKeys, QueryError>) -> Result<JoinKeysV, QueryFault> {
    match r {
        Ok(k) => Ok(k@),
        Err(e) => Err(e@),
    }
}

fn one_key(x: Ast, y: Ast) -> (k: JoinKeys)
    ensures
        k@ == (JoinKeysV { outer: seq![x@], inner: seq![y@] }),
{
    let ghost xv = x@;
    let ghost yv = y@;
    let mut outer: Vec<Ast> = Vec::new();
    outer.push(x);
    let mut inner: Vec<Ast> = Vec::new();
    inner.push(y);
    assert(views(outer@) =~= seq![xv]);
    assert(views(inner@) =~= seq![yv]);
    JoinKeys { outer, inner }
}

fn both_sides_error(a: &str) -> (e: QueryError)
    ensures
        e@ == both_sides(a@),
{
    let mut m = "join `on` predicate must split `".to_owned();
    m.append(a);
    m.append(".field` against a prior-alias expression \u{2014} both sides reference `");
    m.append(a);
    m.append("`");
    QueryError::new(0, m)
}

/// Lowers the keys of a join.
#[verifier::spinoff_prover]
fn lower_join_keys(e: &Expr, a: &str, s: &Scope) -> (r: Result<JoinKeys, QueryError>)
    requires
        s.wf(),
    ensures
        keys_outcome(r) == join_keys(e@, a@, s@),
    decreases s.left, 1nat, 0nat, e, 0nat,
{
    proof {
        reveal(join_keys);
        reveal(lowered);
        reveal(expr_view);
    }
    match e {
        Expr::Compare(l, _, r) => {
            let in_left = references_alias(l, a);
            let in_right = references_alias(r, a);
            if in_left && in_right {
                return Err(both_sides_error(a));
            }
            if !in_left && !in_right {
                return Err(
                    naming(
                        "join `on` predicate must reference the new alias `",
                        a,
                        "` on exactly one side",
                    ),
                );
            }
            let (outer, inner) = if in_left {
                (r, l)
            } else {
                (l, r)
            };
            let x = match lower_expr(outer, s) {
                Ok(x) => x,
                Err(f) => {
                    return Err(f);
                },
            };
            match lower_expr(inner, &s.stripping(a)) {
                Ok(y) => Ok(one_key(x, y)),
                Err(f) => Err(f),
            }
        },
        Expr::And(l, r) => {
            let x = match lower_join_keys(l, a, s) {
                Ok(x) => x,
                Err(f) => {
                    return Err(f);
                },
            };
            match lower_join_keys(r, a, s) {
                Ok(y) => {
                    let ghost xv = x@;
                    let ghost yv = y@;
                    let mut outer = x.outer;
                    let mut inner = x.inner;
                    let mut more_outer = y.outer;
                    let mut more_inner = y.inner;
                    outer.append(&mut more_outer);
                    inner.append(&mut more_inner);
                    assert(views(outer@) =~= xv.outer + yv.outer);
                    assert(views(inner@) =~= xv.inner + yv.inner);
                    Ok(JoinKeys { outer, inner })
                },
                Err(f) => Err(f),
            }
        },
        _ => Err(
            error(
                "join `on` predicate must be an equality `LEFT == RIGHT` or an `and`-chain of equalities",
            ),
        ),
    }
}

fn key_tuple(v: Vec<Ast>) -> (a: Ast)
    ensures
        a@ == key_ast(views(v@)),
{
    let ghost all = views(v@);
    assert(all.len() == v@.len());
    if v.len() == 1 {
        let mut v = v;
        assert(all[0] == v@[0]@);
        v.swap_remove(0)
    } else {
        Ast::KeyTuple(v)
    }
}

#[verifier::spinoff_prover]
fn lower_join_to_lookup(j: &JoinClause, s: &Scope) -> (r: Result<Ast, QueryError>)
    requires
        s.wf(),
    ensures
        outcome(r) == lowered_join(j@, s@),
    decreases s.left, 1nat, 0nat, j, 0nat,
{
    proof {
        reveal(lowered_join);
        reveal(join_keys);
        reveal(join_view);
        reveal(expr_view);
        reveal(path_view);
    }
    if !only_equalities(&j.on) {
        return Err(
            error(
                "join `on` predicate must be an equality `LEFT == RIGHT` or an `and`-chain of equalities",
            ),
        );
    }
    let k = match lower_join_keys(&j.on, j.alias.as_str(), s) {
        Ok(k) => k,
        Err(f) => {
            return Err(f);
        },
    };
    match lower_path(&j.path, s) {
        Ok(source) => {
            let ghost sv = source@;
            let ghost kv = k@;
            let outer = key_tuple(k.outer);
            let inner = key_tuple(k.inner);
            let source_canon = source.canonical();
            let key_canon = inner.canonical();
            let lookup = Ast::Lookup {
                source: Box::new(source),
                key: Box::new(inner),
                source_canon,
                key_canon,
            };
            assert(lookup@ == (AstV::Lookup {
                source: Box::new(sv),
                key: Box::new(key_ast(kv.inner)),
                source_canon: canon(sv),
                key_canon: canon(key_ast(kv.inner)),
            }));
            let a = Ast::JoinEach {
                alias: j.alias.clone(),
                outer_key: Box::new(outer),
                lookup: Box::new(lookup),
                inner: j.kind == JoinKind::Inner,
            };
            assert(a@ == join_stage(j@, kv, sv));
            Ok(a)
        },
        Err(f) => Err(f),
    }
}

/// The stages so far, and the aliases that they bind.
pub struct Stage {
    pub ast: Ast,
    pub aliases: Vec<String>,
}

impl View for Stage {
    type V = StageV;

    open spec fn view(&self) -> StageV {
        StageV { ast: self.ast@, aliases: texts(self.aliases@) }
    }
}

pub open spec fn stage_outcome(r: Result<Stage, QueryError>) -> Result<StageV, QueryFault> {
    match r {
        Ok(t) => Ok(t@),
        Err(e) => Err(e@),
    }
}

/// Adds the joins.
#[verifier::spinoff_prover]
fn lower_joins(v: &Vec<JoinClause>, st: Stage, s: &Scope) -> (r: Result<Stage, QueryError>)
    requires
        s.wf(),
    ensures
        stage_outcome(r) == lowered_joins(join_views(v@), st@, s@),
    decreases s.left, 3nat, 0nat, v, 0nat,
{
    proof {
        reveal(lowered_joins);
        reveal(lowered_join);
        reveal(join_views);
    }
    let ghost all = join_views(v@);
    let ghost start = st@;
    let mut ast = st.ast;
    let mut aliases = st.aliases;
    let mut err: Option<QueryError> = None;
    let mut i: usize = 0;
    assert(all.take(0) =~= Seq::empty());
    while i < v.len()
        invariant
            s.wf(),
            i <= v@.len(),
            all == join_views(v@),
            all.len() == v@.len(),
            lowered_joins(all.take(i as int), start, s@) == match err {
                Some(e) => Err::<StageV, QueryFault>(e@),
                None => Ok(StageV { ast: ast@, aliases: texts(aliases@) }),
            },
        decreases v@.len() - i,
    {
        proof {
            reveal(lowered_joins);
            reveal(lowered_join);
            reveal(join_views);
            reveal(join_view);
            let next = all.take(i + 1);
            assert(next.drop_last() =~= all.take(i as int));
            assert(next.last() == all[i as int]);
            assert(all[i as int] == join_view(v@[i as int]));
            assert(decreases_to!(v => v@[i as int]));
        }
        if err.is_none() {
            if has_name(&aliases, v[i].alias.as_str()) {
                err = Some(naming("duplicate alias `", v[i].alias.as_str(), "`"));
            } else {
                let here = s.with_aliases(&aliases);
                match lower_join_to_lookup(&v[i], &here) {
                    Ok(x) => {
                        ast = pipe(ast, x);
                        aliases = with_name(&aliases, v[i].alias.as_str());
                    },
                    Err(f) => {
                        err = Some(f);
                    },
                }
            }
        }
        i += 1;
    }
    assert(all.take(i as int) =~= all);
    match err {
        Some(f) => Err(f),
        None => Ok(Stage { ast, aliases }),
    }
}

/// Adds the unnests.
#[verifier::spinoff_prover]
fn lower_unnests(v: &Vec<UnnestClause>, st: Stage, s: &Scope) -> (r: Result<Stage, QueryError>)
    requires
        s.wf(),
    ensures
        stage_outcome(r) == lowered_unnests(unnest_views(v@), st@, s@),
    decreases s.left, 3nat, 0nat, v, 0nat,
{
    proof {
        reveal(lowered_unnests);
        reveal(lowered);
        reveal(unnest_views);
    }
    let ghost all = unnest_views(v@);
    let ghost start = st@;
    let mut ast = st.ast;
    let mut aliases = st.aliases;
    let mut err: Option<QueryError> = None;
    let mut i: usize = 0;
    assert(all.take(0) =~= Seq::empty());
    while i < v.len()
        invariant
            s.wf(),
            i <= v@.len(),
            all == unnest_views(v@),
            all.len() == v@.len(),
            lowered_unnests(all.take(i as int), start, s@) == match err {
                Some(e) => Err::<StageV, QueryFault>(e@),
                None => Ok(StageV { ast: ast@, aliases: texts(aliases@) }),
            },
        decreases v@.len() - i,
    {
        proof {
            reveal(lowered_unnests);
            reveal(lowered);
            reveal(unnest_views);
            reveal(unnest_view);
            let next = all.take(i + 1);
            assert(next.drop_last() =~= all.take(i as int));
            assert(next.last() == all[i as int]);
            assert(all[i as int] == unnest_view(v@[i as int]));
            assert(decreases_to!(v => v@[i as int]));
        }
        if err.is_none() {
            if has_name(&aliases, v[i].alias.as_str()) {
                err = Some(naming("duplicate alias `", v[i].alias.as_str(), "`"));
            } else {
                let here = s.with_aliases(&aliases);
                match lower_expr(&v[i].expr, &here) {
                    Ok(x) => {
                        let u = Ast::UnnestEach {
                            alias: v[i].alias.clone(),
                            source: Box::new(x),
                        };
                        ast = pipe(ast, u);
                        aliases = with_name(&aliases, v[i].alias.as_str());
                    },
                    Err(f) => {
                        err = Some(f);
                    },
                }
            }
        }
        i += 1;
    }
    assert(all.take(i as int) =~= all);
    match err {
        Some(f) => Err(f),
        None => Ok(Stage { ast, aliases }),
    }
}

#[verifier::spinoff_prover]
fn lower_where(o: &Option<Expr>, a: Ast, s: &Scope) -> (r: Result<Ast, QueryError>)
    requires
        s.wf(),
    ensures
        outcome(r) == lowered_where(opt_expr_view(*o), a@, s@),
    decreases s.left, 1nat, 0nat, o, 0nat,
{
    proof {
        reveal(lowered_where);
        reveal(lowered);
        reveal(opt_expr_view);
    }
    match o {
        None => Ok(a),
        Some(e) => match lower_expr(e, s) {
            Ok(x) => {
                let p = Ast::Select(Box::new(reorder_predicate_chain(x)));
                Ok(pipe(a, p))
            },
            Err(f) => Err(f),
        },
    }
}

fn agg_op_to_reducer(op: AggOp) -> (r: ReducerOp)
    ensures
        r == reducer_op(op),
{
    match op {
        AggOp::Sum => ReducerOp::Sum,
        AggOp::Count => ReducerOp::Count,
        AggOp::Avg => ReducerOp::Avg,
        AggOp::Min => ReducerOp::Min,
        AggOp::Max => ReducerOp::Max,
    }
}

/// The parts of a reduction, written out.
#[verifier::spinoff_prover]
fn reducer_dedup_key(value: &Option<Box<Ast>>, cond: &Option<Box<Ast>>) -> (t: String)
    ensures
        t@ == canon_opt(opt_view(*value)) + "|"@ + canon_opt(opt_view(*cond)),
{
    let mut t = match value {
        Some(a) => a.canonical(),
        None => {
            let none = String::new();
            assert(none@ =~= Seq::empty());
            none
        },
    };
    t.append("|");
    match cond {
        Some(a) => {
            let c = a.canonical();
            t.append(c.as_str());
        },
        None => {
            assert(t@ + Seq::<char>::empty() =~= t@);
        },
    }
    t
}

/// What the reductions of an item share: its condition, where it has one,
/// and its name.
pub struct Item<'a> {
    pub cond: &'a Option<Expr>,
    pub scope: Scope<'a>,
    pub name: String,
}

impl<'a> Item<'a> {
    pub open spec fn wf(self) -> bool {
        self.scope.wf() && lowered_opt(opt_expr_view(*self.cond), self.scope@) is Ok
    }

    /// The lowered condition.
    pub open spec fn cond_ast(self) -> Option<Box<AstV>> {
        lowered_opt(opt_expr_view(*self.cond), self.scope@)->Ok_0
    }
}

#[verifier::spinoff_prover]
proof fn one_unfold(e: ExprV, s: ScopeV)
    ensures
        lowered_one(e, s) == lowered(e, s),
{
    reveal(lowered_one);
    reveal(lowered);
}

#[verifier::spinoff_prover]
fn lower_opt(o: &Option<Expr>, s: &Scope) -> (r: Result<Option<Box<Ast>>, QueryError>)
    requires
        s.wf(),
    ensures
        opt_outcome(r) == lowered_opt(opt_expr_view(*o), s@),
    decreases s.left, 1nat, s.let_count, o, 0nat,
{
    proof {
        reveal(lowered_opt);
        reveal(lowered_one);
        reveal(opt_expr_view);
        if let Some(e) = o {
            one_unfold(e@, s@);
        }
    }
    match o {
        None => Ok(None),
        Some(e) => match lower_expr(e, s) {
            Ok(x) => Ok(Some(Box::new(x))),
            Err(f) => Err(f),
        },
    }
}

/// Where a reduction that is written the same stands.
fn find_reduction(
    v: &Vec<AggReduction>,
    op: ReducerOp,
    value: &Option<Box<Ast>>,
    cond: &Option<Box<Ast>>,
) -> (r: Option<usize>)
    ensures
        match reduction_place(reduction_views(v@), op, opt_view(*value), opt_view(*cond), 0) {
            Some(i) => r == Some(i as usize) && 0 <= i < v@.len(),
            None => r is None,
        },
{
    let ghost all = reduction_views(v@);
    let ghost vv = opt_view(*value);
    let ghost cv = opt_view(*cond);
    let key = reducer_dedup_key(value, cond);
    let mut i: usize = 0;
    while i < v.len()
        invariant
            i <= v@.len(),
            all == reduction_views(v@),
            all.len() == v@.len(),
            vv == opt_view(*value),
            cv == opt_view(*cond),
            key@ == canon_opt(vv) + "|"@ + canon_opt(cv),
            reduction_place(all, op, vv, cv, 0) == reduction_place(all, op, vv, cv, i as int),
        decreases v@.len() - i,
    {
        assert(all[i as int] == v@[i as int]@);
        if v[i].op == op {
            let here = reducer_dedup_key(&v[i].value, &v[i].where_pred);
            if *here.as_str() == *key.as_str() {
                return Some(i);
            }
        }
        i += 1;
    }
    None
}

/// The slot of a reduction; one that is written the same is shared.
fn hoist(
    op: ReducerOp,
    value: Option<Box<Ast>>,
    cond: Option<Box<Ast>>,
    v: Vec<AggReduction>,
    item: &str,
) -> (r: (Ast, Vec<AggReduction>))
    ensures
        r.0@ == with_reduction(
            reduction_views(v@),
            op,
            opt_view(value),
            opt_view(cond),
            item@,
        ).0,
        reduction_views(r.1@) == with_reduction(
            reduction_views(v@),
            op,
            opt_view(value),
            opt_view(cond),
            item@,
        ).1,
{
    let ghost all = reduction_views(v@);
    assert(all.len() == v@.len());
    match find_reduction(&v, op, &value, &cond) {
        Some(i) => (Ast::ReducerSlot(i), v),
        None => {
            let n: usize = v.len();
            let mut name = "__".to_owned();
            name.append(item);
            name.append("_");
            let place = decimal(n as u64);
            name.append(place.as_str());
            let ghost added = AggReductionV {
                name: name@,
                op,
                value: opt_view(value),
                where_pred: opt_view(cond),
            };
            let mut kept = v;
            kept.push(AggReduction { name, op, value, where_pred: cond });
            assert(reduction_views(kept@) =~= all.push(added));
            (Ast::ReducerSlot(n), kept)
        },
    }
}

/// Lowers a reduction of an item.
#[verifier::spinoff_prover]
fn lower_reduction<'a>(
    op: ReducerOp,
    value: Option<Box<Ast>>,
    v: Vec<AggReduction>,
    it: &Item<'a>,
) -> (r: Result<(Ast, Vec<AggReduction>), QueryError>)
    requires
        it.wf(),
    ensures
        output_outcome(r) == Ok::<(AstV, Seq<AggReductionV>), QueryFault>(
            with_reduction(reduction_views(v@), op, opt_view(value), it.cond_ast(), it.name@),
        ),
    decreases it.scope.left, 2nat, 0nat, it.cond, 0nat,
{
    match lower_opt(it.cond, &it.scope) {
        Ok(cond) => Ok(hoist(op, value, cond, v, it.name.as_str())),
        Err(f) => Err(f),
    }
}

pub open spec fn output_outcome(r: Result<(Ast, Vec<AggReduction>), QueryError>) -> Result<
    (AstV, Seq<AggReductionV>),
    QueryFault,
> {
    match r {
        Ok(x) => Ok((x.0@, reduction_views(x.1@))),
        Err(e) => Err(e@),
    }
}

pub open spec fn outputs_outcome(r: Result<(Vec<Ast>, Vec<AggReduction>), QueryError>) -> Result<
    (Seq<AstV>, Seq<AggReductionV>),
    QueryFault,
> {
    match r {
        Ok(x) => Ok((views(x.0@), reduction_views(x.1@))),
        Err(e) => Err(e@),
    }
}

/// Expressions of two parts over reductions.
#[verifier::spinoff_prover]
fn lower_output_pair<'a>(e: &Expr, v: Vec<AggReduction>, it: &Item<'a>, s: &Scope) -> (r: Result<
    (Ast, Vec<AggReduction>),
    QueryError,
>)
    requires
        s.wf(),
        it.wf(),
        it.scope.left == s.left,
        e is Binary || e is Compare || e is And || e is Or,
    ensures
        output_outcome(r) == lowered_output(e@, reduction_views(v@), it.cond_ast(), it.name@, s@),
    decreases s.left, 3nat, s.let_count, e, 1nat,
{
    proof {
        reveal(lowered_output);
        reveal(expr_view);
    }
    match e {
        Expr::Binary { op, lhs, rhs } => {
            let (x, v) = match lower_output(lhs, v, it, s) {
                Ok(p) => p,
                Err(f) => {
                    return Err(f);
                },
            };
            match lower_output(rhs, v, it, s) {
                Ok((y, w)) => Ok((Ast::Binary { op: *op, lhs: Box::new(x), rhs: Box::new(y) }, w)),
                Err(f) => Err(f),
            }
        },
        Expr::Compare(l, op, r) => {
            let (x, v) = match lower_output(l, v, it, s) {
                Ok(p) => p,
                Err(f) => {
                    return Err(f);
                },
            };
            match lower_output(r, v, it, s) {
                Ok((y, w)) => Ok((Ast::Compare(Box::new(x), *op, Box::new(y)), w)),
                Err(f) => Err(f),
            }
        },
        Expr::And(l, r) => {
            let (x, v) = match lower_output(l, v, it, s) {
                Ok(p) => p,
                Err(f) => {
                    return Err(f);
                },
            };
            match lower_output(r, v, it, s) {
                Ok((y, w)) => Ok((Ast::And(Box::new(x), Box::new(y)), w)),
                Err(f) => Err(f),
            }
        },
        Expr::Or(l, r) => {
            let (x, v) = match lower_output(l, v, it, s) {
                Ok(p) => p,
                Err(f) => {
                    return Err(f);
                },
            };
            match lower_output(r, v, it, s) {
                Ok((y, w)) => Ok((Ast::Or(Box::new(x), Box::new(y)), w)),
                Err(f) => Err(f),
            }
        },
        _ => Ok((Ast::LitNull, v)),
    }
}

/// Lowers an expression over reductions.
#[verifier::spinoff_prover]
fn lower_output<'a>(e: &Expr, v: Vec<AggReduction>, it: &Item<'a>, s: &Scope) -> (r: Result<
    (Ast, Vec<AggReduction>),
    QueryError,
>)
    requires
        s.wf(),
        it.wf(),
        it.scope.left == s.left,
    ensures
        output_outcome(r) == lowered_output(e@, reduction_views(v@), it.cond_ast(), it.name@, s@),
    decreases s.left, 3nat, s.let_count, e, 2nat,
{
    proof {
        reveal(lowered_output);
        reveal(lowered_outputs);
        reveal(expr_view);
    }
    match e {
        Expr::Path(_) => match find_let(e, s) {
            Some(i) => {
                proof {
                    let_entry(*s, i as int);
                    let_size(*s);
                }
                lower_output(&s.lets[i].expr, v, it, &s.with_lets(i))
            },
            None => match lower_expr(e, s) {
                Ok(x) => Ok((x, v)),
                Err(f) => Err(f),
            },
        },
        Expr::Reducer { op, arg } => match arg {
            None => lower_reduction(agg_op_to_reducer(*op), None, v, it),
            Some(x) => match lower_expr(x, s) {
                Ok(y) => lower_reduction(agg_op_to_reducer(*op), Some(Box::new(y)), v, it),
                Err(f) => Err(f),
            },
        },
        Expr::Binary { .. } | Expr::Compare(..) | Expr::And(..) | Expr::Or(..) => {
            lower_output_pair(e, v, it, s)
        },
        Expr::Neg(x) => match lower_output(x, v, it, s) {
            Ok((y, w)) => Ok((Ast::Neg(Box::new(y)), w)),
            Err(f) => Err(f),
        },
        Expr::Not(x) => match lower_output(x, v, it, s) {
            Ok((y, w)) => Ok((pipe(y, Ast::Not), w)),
            Err(f) => Err(f),
        },
        Expr::Call(n, args) => match lower_outputs(args, v, it, s) {
            Ok((x, w)) => Ok((Ast::Call { name: n.clone(), args: x }, w)),
            Err(f) => Err(f),
        },
        Expr::If { cond, then_branch, else_branch } => {
            let (x, v) = match lower_output(cond, v, it, s) {
                Ok(p) => p,
                Err(f) => {
                    return Err(f);
                },
            };
            let (y, v) = match lower_output(then_branch, v, it, s) {
                Ok(p) => p,
                Err(f) => {
                    return Err(f);
                },
            };
            match lower_output(else_branch, v, it, s) {
                Ok((z, w)) => Ok(
                    (
                        Ast::If {
                            cond: Box::new(x),
                            then_branch: Box::new(y),
                            else_branch: Box::new(z),
                        },
                        w,
                    ),
                ),
                Err(f) => Err(f),
            }
        },
        _ => match lower_expr(e, s) {
            Ok(x) => Ok((x, v)),
            Err(f) => Err(f),
        },
    }
}

#[verifier::spinoff_prover]
fn lower_outputs<'a>(es: &Vec<Expr>, v: Vec<AggReduction>, it: &Item<'a>, s: &Scope) -> (r: Result<
    (Vec<Ast>, Vec<AggReduction>),
    QueryError,
>)
    requires
        s.wf(),
        it.wf(),
        it.scope.left == s.left,
    ensures
        outputs_outcome(r) == lowered_outputs(
            expr_views(es@),
            reduction_views(v@),
            it.cond_ast(),
            it.name@,
            s@,
        ),
    decreases s.left, 3nat, s.let_count, es, 0nat,
{
    proof {
        reveal(lowered_outputs);
        reveal(lowered_output);
        reveal(expr_views);
    }
    let ghost all = expr_views(es@);
    let ghost start = reduction_views(v@);
    let mut out: Vec<Ast> = Vec::new();
    let mut kept = v;
    let mut i: usize = 0;
    proof {
        assert(all.take(0) =~= Seq::empty());
        assert(views(out@) =~= Seq::empty());
    }
    while i < es.len()
        invariant
            s.wf(),
            it.wf(),
            it.scope.left == s.left,
            i <= es@.len(),
            all == expr_views(es@),
            all.len() == es@.len(),
            lowered_outputs(all.take(i as int), start, it.cond_ast(), it.name@, s@) == Ok::<
                (Seq<AstV>, Seq<AggReductionV>),
                QueryFault,
            >((views(out@), reduction_views(kept@))),
            start == reduction_views(v@),
        decreases es@.len() - i,
    {
        proof {
            reveal(lowered_outputs);
            reveal(lowered_output);
            reveal(expr_views);
            let next = all.take(i + 1);
            assert(next.drop_last() =~= all.take(i as int));
            assert(next.last() == all[i as int]);
            assert(all[i as int] == expr_view(es@[i as int]));
            assert(decreases_to!(es => es@[i as int]));
        }
        match lower_output(&es[i], kept, it, s) {
            Ok((x, w)) => {
                let ghost before = views(out@);
                let ghost added = x@;
                out.push(x);
                kept = w;
                assert(views(out@) =~= before.push(added));
            },
            Err(f) => {
                proof {
                    broken_outputs(all, start, it.cond_ast(), it.name@, s@, i + 1, f@);
                }
                return Err(f);
            },
        }
        i += 1;
    }
    assert(all.take(i as int) =~= all);
    Ok((out, kept))
}

/// A list that breaks stays broken.
#[verifier::spinoff_prover]
proof fn broken_outputs(
    all: Seq<ExprV>,
    v: Seq<AggReductionV>,
    cond: Option<Box<AstV>>,
    item: Seq<char>,
    s: ScopeV,
    i: int,
    f: QueryFault,
)
    requires
        0 <= i <= all.len(),
        lowered_outputs(all.take(i), v, cond, item, s) == Err::<
            (Seq<AstV>, Seq<AggReductionV>),
            QueryFault,
        >(f),
    ensures
        lowered_outputs(all, v, cond, item, s) == Err::<
            (Seq<AstV>, Seq<AggReductionV>),
            QueryFault,
        >(f),
    decreases all.len() - i,
{
    if i < all.len() {
        reveal(lowered_outputs);
        reveal(lowered_output);
        let next = all.take(i + 1);
        assert(next.drop_last() =~= all.take(i));
        broken_outputs(all, v, cond, item, s, i + 1, f);
    } else {
        assert(all.take(i) =~= all);
    }
}

pub open spec fn item_outcome(r: Result<(AggOutputNode, Vec<AggReduction>), QueryError>) -> Result<
    (AggOutputV, Seq<AggReductionV>),
    QueryFault,
> {
    match r {
        Ok(x) => Ok((x.0@, reduction_views(x.1@))),
        Err(e) => Err(e@),
    }
}

pub open spec fn items_outcome(
    r: Result<(Vec<(String, AggOutputNode)>, Vec<AggReduction>), QueryError>,
) -> Result<(Seq<(Seq<char>, AggOutputV)>, Seq<AggReductionV>), QueryFault> {
    match r {
        Ok(x) => Ok((output_views(x.0@), reduction_views(x.1@))),
        Err(e) => Err(e@),
    }
}

/// Lowers an item of an aggregate block.
#[verifier::spinoff_prover]
fn lower_agg_output<'a>(
    e: &Expr,
    default: Result<Option<Box<Ast>>, QueryError>,
    v: Vec<AggReduction>,
    it: &Item<'a>,
    s: &Scope,
) -> (r: Result<(AggOutputNode, Vec<AggReduction>), QueryError>)
    requires
        s.wf(),
        it.wf(),
        it.scope.left == s.left,
    ensures
        item_outcome(r) == lowered_item(
            e@,
            opt_outcome(default),
            reduction_views(v@),
            it.cond_ast(),
            it.name@,
            s@,
        ),
    decreases s.left, 4nat, s.let_count, e, 1nat,
{
    proof {
        reveal(lowered_item);
        reveal(lowered_item_fields);
        reveal(lowered_output);
        reveal(expr_view);
    }
    match e {
        Expr::Object(f) => {
            let plain = match &default {
                Ok(None) => true,
                _ => false,
            };
            if !plain {
                return Err(
                    error(
                        "`??` default has no effect on an object-valued item \u{2014} attach it to a leaf inside the object instead",
                    ),
                );
            }
            match lower_agg_fields(f, v, it, s) {
                Ok((x, w)) => Ok((AggOutputNode::Object(x), w)),
                Err(g) => Err(g),
            }
        },
        _ => match find_let(e, s) {
            Some(i) => {
                proof {
                    let_entry(*s, i as int);
                    let_size(*s);
                }
                lower_agg_output(&s.lets[i].expr, default, v, it, &s.with_lets(i))
            },
            None => match lower_output(e, v, it, s) {
                Ok((x, w)) => match default {
                    Ok(d) => Ok((AggOutputNode::Leaf { expr: Box::new(x), default: d }, w)),
                    Err(g) => Err(g),
                },
                Err(g) => Err(g),
            },
        },
    }
}

#[verifier::spinoff_prover]
fn lower_agg_fields<'a>(fs: &Vec<ObjectField>, v: Vec<AggReduction>, it: &Item<'a>, s: &Scope) -> (r:
    Result<(Vec<(String, AggOutputNode)>, Vec<AggReduction>), QueryError>)
    requires
        s.wf(),
        it.wf(),
        it.scope.left == s.left,
    ensures
        items_outcome(r) == lowered_item_fields(
            object_views(fs@),
            reduction_views(v@),
            it.cond_ast(),
            it.name@,
            s@,
        ),
    decreases s.left, 4nat, s.let_count, fs, 0nat,
{
    proof {
        reveal(lowered_item_fields);
        reveal(lowered_item);
        reveal(lowered_opt);
        reveal(object_views);
    }
    let ghost all = object_views(fs@);
    let ghost start = reduction_views(v@);
    let mut out: Vec<(String, AggOutputNode)> = Vec::new();
    let mut kept = v;
    let mut i: usize = 0;
    proof {
        assert(all.take(0) =~= Seq::empty());
        assert(output_views(out@) =~= Seq::empty());
    }
    while i < fs.len()
        invariant
            s.wf(),
            it.wf(),
            it.scope.left == s.left,
            i <= fs@.len(),
            all == object_views(fs@),
            all.len() == fs@.len(),
            lowered_item_fields(all.take(i as int), start, it.cond_ast(), it.name@, s@) == Ok::<
                (Seq<(Seq<char>, AggOutputV)>, Seq<AggReductionV>),
                QueryFault,
            >((output_views(out@), reduction_views(kept@))),
            start == reduction_views(v@),
        decreases fs@.len() - i,
    {
        proof {
            reveal(lowered_item_fields);
            reveal(lowered_item);
            reveal(lowered_opt);
            reveal(object_views);
            reveal(object_view);
            let next = all.take(i + 1);
            assert(next.drop_last() =~= all.take(i as int));
            assert(next.last() == all[i as int]);
            assert(all[i as int] == object_view(fs@[i as int]));
            assert(decreases_to!(fs => fs@[i as int]));
        }
        let mut name = it.name.clone();
        name.append("_");
        name.append(fs[i].name.as_str());
        let below = Item { cond: it.cond, scope: it.scope, name };
        assert(below.cond_ast() == it.cond_ast());
        let default = lower_opt(&fs[i].default, s);
        match lower_agg_output(&fs[i].value, default, kept, &below, s) {
            Ok((x, w)) => {
                let ghost before = output_views(out@);
                let ghost added = (fs@[i as int].name@, x@);
                out.push((fs[i].name.clone(), x));
                kept = w;
                assert(output_views(out@) =~= before.push(added));
            },
            Err(f) => {
                proof {
                    broken_fields(all, start, it.cond_ast(), it.name@, s@, i + 1, f@);
                }
                return Err(f);
            },
        }
        i += 1;
    }
    assert(all.take(i as int) =~= all);
    Ok((out, kept))
}

#[verifier::spinoff_prover]
proof fn broken_fields(
    all: Seq<super::ast::ObjectFieldV>,
    v: Seq<AggReductionV>,
    cond: Option<Box<AstV>>,
    item: Seq<char>,
    s: ScopeV,
    i: int,
    f: QueryFault,
)
    requires
        0 <= i <= all.len(),
        lowered_item_fields(all.take(i), v, cond, item, s) == Err::<
            (Seq<(Seq<char>, AggOutputV)>, Seq<AggReductionV>),
            QueryFault,
        >(f),
    ensures
        lowered_item_fields(all, v, cond, item, s) == Err::<
            (Seq<(Seq<char>, AggOutputV)>, Seq<AggReductionV>),
            QueryFault,
        >(f),
    decreases all.len() - i,
{
    if i < all.len() {
        reveal(lowered_item_fields);
        reveal(lowered_item);
        reveal(lowered_opt);
        let next = all.take(i + 1);
        assert(next.drop_last() =~= all.take(i));
        broken_fields(all, v, cond, item, s, i + 1, f);
    } else {
        assert(all.take(i) =~= all);
    }
}

/// Lowers the items of an aggregate block.
#[verifier::spinoff_prover]
fn lower_block_items(items: &Vec<AggBlockItem>, s: &Scope) -> (r: Result<
    (Vec<(String, AggOutputNode)>, Vec<AggReduction>),
    QueryError,
>)
    requires
        s.wf(),
    ensures
        items_outcome(r) == lowered_block_items(agg_item_views(items@), s@),
    decreases s.left, 5nat, 0nat, items, 0nat,
{
    proof {
        reveal(lowered_block_items);
        reveal(lowered_item);
        reveal(lowered_opt);
        reveal(agg_item_views);
    }
    let ghost all = agg_item_views(items@);
    let mut out: Vec<(String, AggOutputNode)> = Vec::new();
    let mut v: Vec<AggReduction> = Vec::new();
    let mut i: usize = 0;
    proof {
        assert(all.take(0) =~= Seq::empty());
        assert(output_views(out@) =~= Seq::empty());
        assert(reduction_views(v@) =~= Seq::empty());
    }
    while i < items.len()
        invariant
            s.wf(),
            i <= items@.len(),
            all == agg_item_views(items@),
            all.len() == items@.len(),
            lowered_block_items(all.take(i as int), s@) == Ok::<
                (Seq<(Seq<char>, AggOutputV)>, Seq<AggReductionV>),
                QueryFault,
            >((output_views(out@), reduction_views(v@))),
        decreases items@.len() - i,
    {
        proof {
            reveal(lowered_block_items);
            reveal(lowered_item);
            reveal(lowered_opt);
            reveal(agg_item_views);
            reveal(agg_item_view);
            let next = all.take(i + 1);
            assert(next.drop_last() =~= all.take(i as int));
            assert(next.last() == all[i as int]);
            assert(all[i as int] == agg_item_view(items@[i as int]));
            assert(decreases_to!(items => items@[i as int]));
        }
        if let Err(f) = lower_opt(&items[i].where_pred, s) {
            proof {
                broken_items(all, s@, i + 1, f@);
            }
            return Err(f);
        }
        let it = Item { cond: &items[i].where_pred, scope: *s, name: items[i].name.clone() };
        let default = lower_opt(&items[i].default, s);
        match lower_agg_output(&items[i].output, default, v, &it, s) {
            Ok((x, w)) => {
                let ghost before = output_views(out@);
                let ghost added = (items@[i as int].name@, x@);
                out.push((items[i].name.clone(), x));
                v = w;
                assert(output_views(out@) =~= before.push(added));
            },
            Err(f) => {
                proof {
                    broken_items(all, s@, i + 1, f@);
                }
                return Err(f);
            },
        }
        i += 1;
    }
    assert(all.take(i as int) =~= all);
    Ok((out, v))
}

#[verifier::spinoff_prover]
proof fn broken_items(all: Seq<super::ast::AggBlockItemV>, s: ScopeV, i: int, f: QueryFault)
    requires
        0 <= i <= all.len(),
        lowered_block_items(all.take(i), s) == Err::<
            (Seq<(Seq<char>, AggOutputV)>, Seq<AggReductionV>),
            QueryFault,
        >(f),
    ensures
        lowered_block_items(all, s) == Err::<
            (Seq<(Seq<char>, AggOutputV)>, Seq<AggReductionV>),
            QueryFault,
        >(f),
    decreases all.len() - i,
{
    if i < all.len() {
        reveal(lowered_block_items);
        reveal(lowered_item);
        reveal(lowered_opt);
        let next = all.take(i + 1);
        assert(next.drop_last() =~= all.take(i));
        broken_items(all, s, i + 1, f);
    } else {
        assert(all.take(i) =~= all);
    }
}

pub open spec fn group_outcome(r: Result<Option<AggGroup>, QueryError>) -> Result<
    Option<AggGroupV>,
    QueryFault,
> {
    match r {
        Ok(Some(g)) => Ok(Some(g@)),
        Ok(None) => Ok(None),
        Err(e) => Err(e@),
    }
}

#[verifier::spinoff_prover]
fn label_or_key(e: &Expr) -> (n: String)
    ensures
        n@ == label_or(key_label(e@), "key"@),
{
    match group_key_label(e) {
        Some(n) => n,
        None => "key".to_owned(),
    }
}

#[verifier::spinoff_prover]
proof fn rollup_unfold(v: Seq<ExprV>, s: ScopeV)
    ensures
        lowered_groups(v, true, s) == match lowered_roll(v, s) {
            Err(e) => Err::<Option<AggGroupV>, QueryFault>(e),
            Ok(k) => Ok(Some(AggGroupV::Rollup(k))),
        },
{
    reveal(lowered_groups);
    reveal(lowered_roll);
}

#[verifier::spinoff_prover]
proof fn ungrouped_unfold(v: Seq<ExprV>, s: ScopeV)
    requires
        v.len() == 0,
    ensures
        lowered_groups(v, false, s) == Ok::<Option<AggGroupV>, QueryFault>(None),
{
    reveal(lowered_groups);
}

#[verifier::spinoff_prover]
proof fn single_unfold(v: Seq<ExprV>, s: ScopeV)
    requires
        v.len() == 1,
    ensures
        lowered_groups(v, false, s) == match lowered(v[0], s) {
            Err(e) => Err::<Option<AggGroupV>, QueryFault>(e),
            Ok(x) => Ok(
                Some(
                    AggGroupV::Single {
                        name: label_or(key_label(v[0]), "key"@),
                        key: Box::new(x),
                    },
                ),
            ),
        },
{
    reveal(lowered_groups);
    reveal(lowered_one);
    one_unfold(v[0], s);
}

#[verifier::spinoff_prover]
proof fn tuple_unfold(v: Seq<ExprV>, s: ScopeV)
    requires
        v.len() > 1,
    ensures
        lowered_groups(v, false, s) == match lowered_all(v, s) {
            Err(e) => Err::<Option<AggGroupV>, QueryFault>(e),
            Ok(x) => Ok(
                Some(
                    AggGroupV::Single {
                        name: label_or(key_label(v[0]), "key"@),
                        key: Box::new(AstV::KeyTuple(x)),
                    },
                ),
            ),
        },
{
    reveal(lowered_groups);
    reveal(lowered_all);
}

/// How a block groups its rows.
#[verifier::spinoff_prover]
fn lower_groups(v: &Vec<Expr>, rollup: bool, s: &Scope) -> (r: Result<Option<AggGroup>, QueryError>)
    requires
        s.wf(),
    ensures
        group_outcome(r) == lowered_groups(expr_views(v@), rollup, s@),
    decreases s.left, 2nat, s.let_count, v, 0nat,
{
    let ghost all = expr_views(v@);
    proof {
        reveal(expr_views);
        assert(all.len() == v@.len());
        if rollup {
            rollup_unfold(all, s@);
        } else if all.len() == 0 {
            ungrouped_unfold(all, s@);
        } else if all.len() == 1 {
            single_unfold(all, s@);
        } else {
            tuple_unfold(all, s@);
        }
    }
    if rollup {
        return match lower_roll(v, s) {
            Ok(k) => Ok(Some(AggGroup::Rollup(k))),
            Err(f) => Err(f),
        };
    }
    if v.len() == 0 {
        return Ok(None);
    }
    assert(all[0] == expr_view(v@[0]));
    let name = label_or_key(&v[0]);
    if v.len() == 1 {
        assert(decreases_to!(v => v@[0]));
        match lower_expr(&v[0], s) {
            Ok(x) => Ok(Some(AggGroup::Single { name, key: Box::new(x) })),
            Err(f) => Err(f),
        }
    } else {
        match lower_all(v, s) {
            Ok(x) => {
                let k = Ast::KeyTuple(x);
                Ok(Some(AggGroup::Single { name, key: Box::new(k) }))
            },
            Err(f) => Err(f),
        }
    }
}

/// The first thing wrong with the names of `let`.
#[verifier::spinoff_prover]
fn check_lets(l: &Vec<AliasLet>, aliases: &Vec<String>) -> (r: Option<QueryError>)
    ensures
        match lets_fault(let_views(l@), texts(aliases@), l@.len()) {
            Some(f) => r matches Some(e) && e@ == f,
            None => r is None,
        },
{
    let ghost all = let_views(l@);
    let ghost names = texts(aliases@);
    let mut found: Option<QueryError> = None;
    let mut k: usize = 0;
    while k < l.len()
        invariant
            k <= l@.len(),
            all == let_views(l@),
            names == texts(aliases@),
            lets_fault(all, names, k as nat) == match found {
                Some(e) => Some(e@),
                None => None,
            },
        decreases l@.len() - k,
    {
        if found.is_none() {
            proof {
                reveal(let_views);
                reveal(let_view);
            }
            let n = l[k].name.as_str();
            let fresh: Vec<FieldSetDef> = Vec::new();
            let bare: Vec<(String, ParamValue)> = Vec::new();
            let s = Scope {
                aliases,
                sets: &fresh,
                params: &bare,
                lets: l,
                let_count: k,
                strip: None,
                left: 0,
            };
            proof {
                let t = Scope { let_count: (k + 1) as usize, ..s };
                let_entry(t, k as int);
                let_size(t);
                assert(t@.lets[k as int] == all[k as int]);
                assert(s@.lets =~= all.take(k as int));
            }
            if has_name(aliases, n) {
                found = Some(
                    naming(
                        "alias `let ",
                        n,
                        "` shadows a `from`/`join` alias of the same name",
                    ),
                );
            } else if find_let_named(n, &s).is_some() {
                found = Some(naming("duplicate alias `let ", n, "`"));
            }
        }
        k += 1;
    }
    found
}

#[verifier::spinoff_prover]
fn lower_aggregate_block(b: &AggregateBlock, a: Ast, s: &Scope) -> (r: Result<Ast, QueryError>)
    requires
        s.wf(),
        s.let_count == 0,
    ensures
        outcome(r) == lowered_block(b@, let_views(s.lets@), a@, s@),
    decreases s.left, 6nat, 0nat, b, 0nat,
{
    proof {
        reveal(lowered_block);
        reveal(lowered_groups);
        reveal(lowered_block_items);
        reveal(block_view);
        reveal(agg_item_views);
        reveal(expr_views);
        reveal(let_views);
    }
    assert(let_views(s.lets@).len() == s.lets@.len());
    if let Some(f) = check_lets(s.lets, s.aliases) {
        return Err(f);
    }
    let group = match lower_groups(&b.group_by, b.rollup, s) {
        Ok(g) => g,
        Err(f) => {
            return Err(f);
        },
    };
    let inside = Scope { let_count: s.lets.len(), ..*s };
    assert(inside@.lets =~= let_views(s.lets@));
    assert(inside@ == s@.with_lets(let_views(s.lets@)));
    match lower_block_items(&b.reductions, &inside) {
        Ok((outputs, reductions)) => {
            let block = Ast::AggregateBlock { group, reductions, outputs };
            Ok(pipe(a, block))
        },
        Err(f) => Err(f),
    }
}

#[verifier::spinoff_prover]
fn lower_aggregate(o: &Option<AggregateClause>, a: Ast, s: &Scope) -> (r: Result<Ast, QueryError>)
    requires
        s.wf(),
        s.let_count == 0,
    ensures
        outcome(r) == lowered_aggregate(opt_aggregate_view(*o), let_views(s.lets@), a@, s@),
    decreases s.left, 7nat, 0nat, o, 0nat,
{
    proof {
        reveal(lowered_aggregate);
        reveal(lowered_block);
        reveal(lowered);
        reveal(opt_aggregate_view);
        reveal(aggregate_view);
        reveal(let_views);
    }
    assert(let_views(s.lets@).len() == s.lets@.len());
    match o {
        Some(AggregateClause::Block(b)) => lower_aggregate_block(b, a, s),
        _ => {
            if s.lets.len() > 0 {
                return Err(
                    error(
                        "`let NAME = EXPR` (post-where) only applies to an `aggregate { ... }` clause",
                    ),
                );
            }
            match o {
                Some(AggregateClause::Group(g)) => match lower_expr(&g.key, s) {
                    Ok(k) => {
                        let all = Ast::Identity;
                        assert(all@ == AstV::Identity);
                        let by = Ast::By(Box::new(all), Box::new(k));
                        Ok(pipe(a, by))
                    },
                    Err(f) => Err(f),
                },
                _ => Ok(a),
            }
        },
    }
}

#[verifier::spinoff_prover]
fn lower_having(o: &Option<Expr>, grouped: bool, a: Ast, s: &Scope) -> (r: Result<Ast, QueryError>)
    requires
        s.wf(),
    ensures
        outcome(r) == lowered_having(opt_expr_view(*o), grouped, a@, s@),
    decreases s.left, 1nat, 0nat, o, 0nat,
{
    proof {
        reveal(lowered_having);
        reveal(lowered);
        reveal(opt_expr_view);
    }
    match o {
        None => Ok(a),
        Some(e) => {
            if !grouped {
                return Err(error("`having` requires an `aggregate { ... }` clause"));
            }
            match lower_expr(e, s) {
                Ok(x) => {
                    let p = Ast::Select(Box::new(x));
                    Ok(pipe(a, p))
                },
                Err(f) => Err(f),
            }
        },
    }
}

#[verifier::spinoff_prover]
fn lower_select(o: &Option<Vec<(String, Expr)>>, a: Ast, s: &Scope) -> (r: Result<Ast, QueryError>)
    requires
        s.wf(),
    ensures
        outcome(r) == lowered_select(opt_select_view(*o), a@, s@),
    decreases s.left, 2nat, 0nat, o, 0nat,
{
    proof {
        reveal(lowered_select);
        reveal(lowered_columns);
        reveal(opt_select_view);
        reveal(select_views);
    }
    match o {
        None => Ok(a),
        Some(v) => match lower_columns(v, s) {
            Ok(x) => {
                let p = Ast::Project(x);
                Ok(pipe(a, p))
            },
            Err(f) => Err(f),
        },
    }
}

#[verifier::spinoff_prover]
fn lower_order(v: &Vec<OrderKey>, a: Ast, s: &Scope) -> (r: Result<Ast, QueryError>)
    requires
        s.wf(),
    ensures
        outcome(r) == lowered_order(order_views(v@), a@, s@),
    decreases s.left, 2nat, 0nat, v, 0nat,
{
    proof {
        reveal(lowered_order);
        reveal(lowered_keys);
        reveal(order_views);
    }
    assert(order_views(v@).len() == v@.len());
    if v.len() == 0 {
        return Ok(a);
    }
    match lower_keys(v, s) {
        Ok(k) => {
            let p = Ast::SortBy(k);
            Ok(pipe(a, p))
        },
        Err(f) => Err(f),
    }
}

/// Lowers the clauses after the rows are there.
#[verifier::spinoff_prover]
fn lower_rest(q: &Query, a: Ast, s: &Scope) -> (r: Result<Ast, QueryError>)
    requires
        s.wf(),
        s.let_count == 0,
        s.lets == &q.alias_lets,
    ensures
        outcome(r) == lowered_rest(q@, a@, s@),
    decreases s.left, 8nat, 0nat, q, 0nat,
{
    proof {
        reveal(lowered_rest);
        reveal(query_view);
        reveal(opt_aggregate_view);
    }
    let x = match lower_where(&q.where_clause, a, s) {
        Ok(x) => x,
        Err(f) => {
            return Err(f);
        },
    };
    let x = if q.distinct {
        pipe(x, Ast::Distinct)
    } else {
        x
    };
    let x = match lower_aggregate(&q.aggregate, x, s) {
        Ok(x) => x,
        Err(f) => {
            return Err(f);
        },
    };
    let x = match lower_having(&q.having, q.aggregate.is_some(), x, s) {
        Ok(x) => x,
        Err(f) => {
            return Err(f);
        },
    };
    let x = match lower_select(&q.project, x, s) {
        Ok(x) => x,
        Err(f) => {
            return Err(f);
        },
    };
    match lower_order(&q.order_by, x, s) {
        Ok(x) => match q.limit {
            Some(n) => Ok(pipe(x, Ast::Limit(n))),
            None => Ok(x),
        },
        Err(f) => Err(f),
    }
}

#[verifier::spinoff_prover]
proof fn query_unfold(
    q: super::ast::QueryV,
    params: Seq<(Seq<char>, super::lowering::ParamV)>,
    aliases: Seq<Seq<char>>,
    left: nat,
)
    ensures
        lowered_query(q, params, aliases, left) == {
            let s = ScopeV {
                aliases,
                sets: q.field_sets,
                params,
                lets: Seq::empty(),
                strip: None,
                left,
            };
            match lowered_path(q.source.path, s) {
                Err(e) => Err::<AstV, QueryFault>(e),
                Ok(source) => if aliases.contains(q.source.alias) {
                    Err(duplicate_alias(q.source.alias))
                } else {
                    let start = StageV {
                        ast: piped(
                            AstV::Tap(Box::new(source)),
                            AstV::Let { name: q.source.alias, value: Box::new(AstV::Identity) },
                        ),
                        aliases: aliases.push(q.source.alias),
                    };
                    match lowered_joins(q.joins, start, s) {
                        Err(e) => Err(e),
                        Ok(t) => match lowered_unnests(q.unnests, t, s) {
                            Err(e) => Err(e),
                            Ok(t) => lowered_rest(q, t.ast, s.with_aliases(t.aliases)),
                        },
                    }
                },
            }
        },
{
    reveal(lowered_query);
    reveal(lowered_joins);
    reveal(lowered_unnests);
    reveal(lowered_rest);
}

/// Lowers a query, with the aliases of the queries around it in scope.
#[verifier::spinoff_prover]
fn lower_query_scoped(
    q: &Query,
    params: &Vec<(String, ParamValue)>,
    aliases: &Vec<String>,
    left: usize,
) -> (r: Result<Ast, QueryError>)
    ensures
        outcome(r) == lowered_query(q@, param_views(params@), texts(aliases@), left as nat),
    decreases left, 9nat, 0nat, q, 0nat,
{
    proof {
        query_unfold(q@, param_views(params@), texts(aliases@), left as nat);
        reveal(query_view);
        reveal(source_view);
    }
    let s = Scope {
        aliases,
        sets: &q.field_sets,
        params,
        lets: &q.alias_lets,
        let_count: 0,
        strip: None,
        left,
    };
    assert(s@.lets =~= Seq::empty());
    let source = match lower_path(&q.source.path, &s) {
        Ok(x) => x,
        Err(f) => {
            return Err(f);
        },
    };
    let alias = q.source.alias.as_str();
    if has_name(aliases, alias) {
        return Err(naming("duplicate alias `", alias, "`"));
    }
    let ghost sv = source@;
    let tap = Ast::Tap(Box::new(source));
    let here = Ast::Identity;
    assert(here@ == AstV::Identity);
    let bind = Ast::Let { name: q.source.alias.clone(), value: Box::new(here) };
    assert(bind@ == (AstV::Let { name: alias@, value: Box::new(AstV::Identity) }));
    let start = Stage { ast: pipe(tap, bind), aliases: with_name(aliases, alias) };
    let t = match lower_joins(&q.joins, start, &s) {
        Ok(t) => t,
        Err(f) => {
            return Err(f);
        },
    };
    let t = match lower_unnests(&q.unnests, t, &s) {
        Ok(t) => t,
        Err(f) => {
            return Err(f);
        },
    };
    let inside = s.with_aliases(&t.aliases);
    lower_rest(q, t.ast, &inside)
}

/// Lowers a query.
pub fn lower_query(q: &Query, params: &Vec<(String, ParamValue)>) -> (r: Result<Ast, QueryError>)
    ensures
        outcome(r) == lowered_query(q@, param_views(params@), Seq::empty(), nesting()),
{
    let none: Vec<String> = Vec::new();
    assert(texts(none@) =~= Seq::empty());
    lower_query_scoped(q, params, &none, usize::MAX)
}

/// The scope of a bare path: nothing is known.
pub open spec fn no_scope() -> ScopeV {
    ScopeV {
        aliases: Seq::empty(),
        sets: Seq::empty(),
        params: Seq::empty(),
        lets: Seq::empty(),
        strip: None,
        left: 0,
    }
}

/// Lowers a bare path, which starts at the document root.
pub fn lower_path_only(p: &PathExpr) -> (r: Result<Ast, QueryError>)
    ensures
        outcome(r) == lowered_path(p@, no_scope()),
{
    proof {
        reveal(field_set_views);
        reveal(let_views);
    }
    let aliases: Vec<String> = Vec::new();
    let sets: Vec<FieldSetDef> = Vec::new();
    let params: Vec<(String, ParamValue)> = Vec::new();
    let lets: Vec<AliasLet> = Vec::new();
    let s = Scope {
        aliases: &aliases,
        sets: &sets,
        params: &params,
        lets: &lets,
        let_count: 0,
        strip: None,
        left: 0,
    };
    assert(s@.aliases =~= Seq::empty());
    assert(s@.sets =~= Seq::empty());
    assert(s@.params =~= Seq::empty());
    assert(s@.lets =~= Seq::empty());
    lower_path(p, &s)
}

} // verus!
