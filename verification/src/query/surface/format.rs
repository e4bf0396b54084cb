//! The formatter: a query as text in a fixed layout, one clause per line and
//! one item per line inside braces.
//!
//! Names that are no identifiers are quoted, and operands that bind less
//! tightly, or that a word beside them would change, are put in parentheses.
use vstd::prelude::*;

use super::super::ast::{texts, CompareOp};
use super::super::canonical::{int_text, name_text, push_int, push_name};
use super::super::grammar::kw;
use super::ast::{
    agg_item_view, agg_item_views, agg_item_views_len, aggregate_view, block_view, expr_view,
    expr_views, expr_views_len, field_set_views, item_view, item_views, join_view, join_views,
    let_view, let_views, object_view, object_views, opt_aggregate_view, opt_expr_view,
    opt_select_view, order_view, order_views, path_view, query_view, seg_view, seg_views,
    select_views, select_views_len, source_view, unnest_view, unnest_views, AggBlockItem,
    AggBlockItemV, AggOp, AggregateBlock, AggregateBlockV, AggregateClause, AggregateClauseV,
    AliasLet, AliasLetV, BinaryOp, Expr, ExprV, FieldSetDef, FieldSetDefV, FieldSetItem,
    FieldSetItemV, JoinClause, JoinClauseV, JoinKind, Lit, LitV, ObjectField, ObjectFieldV,
    OrderKey, OrderKeyV, PathExpr, PathExprV, PathRoot, PathRootV, PathSeg, PathSegV, Query, QueryV,
    UnnestClause, UnnestClauseV,
};
use crate::sidecar::{utf8, utf8_of};
use crate::text::{chars_of, decimal, decimal_text};

verus! {

/// Line width that field sets are packed to.
pub const MAX_WIDTH: usize = 80;

/// How tightly an expression binds.
pub open spec fn level(e: ExprV) -> int {
    match e {
        ExprV::Or(..) => 0,
        ExprV::And(..) => 1,
        ExprV::Not(..) => 2,
        ExprV::Compare(..) => 3,
        ExprV::In(..) => 3,
        ExprV::NotIn(..) => 3,
        ExprV::Exists(..) => 3,
        ExprV::TypeTest { .. } => 3,
        ExprV::FieldSetCompare { .. } => 3,
        ExprV::Binary { op, .. } => op_level(op),
        ExprV::Neg(..) => 6,
        _ => 7,
    }
}

pub open spec fn op_level(op: BinaryOp) -> int {
    match op {
        BinaryOp::Add => 4,
        BinaryOp::Sub => 4,
        BinaryOp::Mul => 5,
        BinaryOp::Div => 5,
    }
}

pub open spec fn reducer_name(op: AggOp) -> Seq<char> {
    match op {
        AggOp::Sum => kw::SUM@,
        AggOp::Count => kw::COUNT@,
        AggOp::Avg => kw::AVG@,
        AggOp::Min => kw::MIN@,
        AggOp::Max => kw::MAX@,
    }
}

/// The comparison is written as a word.
pub open spec fn is_word(op: CompareOp) -> bool {
    op is Contains || op is StartsWith || op is EndsWith || op is Matches
}

/// A character of a string literal.
pub open spec fn literal_char(c: char) -> Seq<char> {
    if c == '"' {
        "\\\""@
    } else if c == '\\' {
        "\\\\"@
    } else if c == '\n' {
        "\\n"@
    } else if c == '\r' {
        "\\r"@
    } else if c == '\t' {
        "\\t"@
    } else {
        seq![c]
    }
}

pub open spec fn literal_chars(s: Seq<char>) -> Seq<char>
    decreases s.len(),
{
    if s.len() == 0 {
        Seq::empty()
    } else {
        literal_chars(s.drop_last()) + literal_char(s.last())
    }
}

pub open spec fn lit_text(l: LitV) -> Seq<char> {
    match l {
        LitV::Number(n) => n,
        LitV::Str(s) => "\""@ + literal_chars(s) + "\""@,
        LitV::Bool(b) => if b {
            kw::TRUE@
        } else {
            kw::FALSE@
        },
        LitV::Null => kw::NULL@,
    }
}

/// What stands between items.
pub open spec fn comma(first: bool) -> Seq<char> {
    if first {
        Seq::empty()
    } else {
        ", "@
    }
}

/// What ends item `i` of `n` on a line of its own.
pub open spec fn line_end(i: int, n: nat) -> Seq<char> {
    if i + 1 < n {
        ",\n"@
    } else {
        "\n"@
    }
}

/// An expression on one line.
pub open spec fn expr_text(e: ExprV) -> Seq<char>
    decreases e, 1int,
{
    match e {
        ExprV::Path(p) => path_text(p),
        ExprV::Lit(l) => lit_text(l),
        ExprV::Param(n) => "$"@ + n,
        ExprV::Array(v) => "["@ + exprs_text(v) + "]"@,
        ExprV::FieldSetCompare { base, items, op, rhs } => path_text(base) + set_dot(base) + "{"@
            + items_text(items) + "} "@ + op.symbol() + " "@ + compared(*rhs, op),
        ExprV::Compare(l, op, r) => compared(*l, op) + " "@ + op.symbol() + " "@ + compared(*r, op),
        ExprV::In(l, r) => beside_word(*l, 4) + " in "@ + beside_word(*r, 4),
        ExprV::NotIn(l, r) => beside_word(*l, 4) + " not in "@ + beside_word(*r, 4),
        ExprV::And(l, r) => beside_word(*l, 1) + " and "@ + beside_word(*r, 2),
        ExprV::Or(l, r) => beside_word(*l, 0) + " or "@ + beside_word(*r, 1),
        ExprV::Not(x) => "not "@ + beside_word(*x, 2),
        ExprV::Exists(x) => beside_word(*x, 4) + " exists"@,
        ExprV::Binary { op, lhs, rhs } => operand(*lhs, op_level(op)) + " "@ + op.symbol() + " "@
            + operand(*rhs, op_level(op) + 1),
        ExprV::Neg(x) => "-"@ + atom(*x),
        ExprV::Reducer { op, arg } => match arg {
            Some(a) => reducer_name(op) + "("@ + expr_text(*a) + ")"@,
            None => reducer_name(op) + "()"@,
        },
        ExprV::Object(fields) => "{"@ + object_text(fields) + "}"@,
        ExprV::TypeTest { value, kind, negated } => beside_word(*value, 4) + (if negated {
            " is not "@
        } else {
            " is "@
        }) + kind.name(),
        ExprV::Call(n, args) => n + "("@ + exprs_text(args) + ")"@,
        ExprV::Subquery(q) => "("@ + query_text(*q) + ")"@,
        ExprV::If { cond, then_branch, else_branch } => "if("@ + expr_text(*cond) + ", "@
            + expr_text(*then_branch) + ", "@ + expr_text(*else_branch) + ")"@,
    }
}

/// An operand, in parentheses where it binds less tightly than `min`.
pub open spec fn operand(e: ExprV, min: int) -> Seq<char>
    decreases e, 2int,
{
    if level(e) < min {
        "("@ + expr_text(e) + ")"@
    } else {
        expr_text(e)
    }
}

/// The text starts with the sign of a number. Behind a word it would be read
/// as an operator.
pub open spec fn starts_signed(e: ExprV) -> bool
    decreases e,
{
    match e {
        ExprV::Lit(LitV::Number(n)) => n.len() > 0 && n[0] == '-',
        ExprV::Binary { op, lhs, .. } => level(*lhs) >= op_level(op) && starts_signed(*lhs),
        ExprV::Compare(l, op, _) => !is_word(op) && level(*l) >= 4 && starts_signed(*l),
        _ => false,
    }
}

/// The text ends with a lone dot, which would take a word behind it for a
/// field.
pub open spec fn ends_in_dot(e: ExprV) -> bool
    decreases e,
{
    match e {
        ExprV::Path(p) => p.root is Identity && p.segments.len() == 0,
        ExprV::Neg(x) => ends_in_dot(*x),
        ExprV::Binary { op, rhs, .. } => level(*rhs) > op_level(op) && ends_in_dot(*rhs),
        ExprV::Compare(_, op, r) => !is_word(op) && level(*r) >= 4 && ends_in_dot(*r),
        _ => false,
    }
}

pub open spec fn joins_words(e: ExprV) -> bool {
    starts_signed(e) || ends_in_dot(e)
}

/// An operand next to a word.
pub open spec fn beside_word(e: ExprV, min: int) -> Seq<char>
    decreases e, 2int,
{
    if level(e) < min || joins_words(e) {
        "("@ + expr_text(e) + ")"@
    } else {
        expr_text(e)
    }
}

/// An operand of a comparison.
pub open spec fn compared(e: ExprV, op: CompareOp) -> Seq<char>
    decreases e, 3int,
{
    if is_word(op) {
        beside_word(e, 4)
    } else {
        operand(e, 4)
    }
}

/// The operand of a minus sign. A number in front of one would join it.
pub open spec fn is_atom(e: ExprV) -> bool {
    match e {
        ExprV::Path(_) => true,
        ExprV::Reducer { .. } => true,
        ExprV::Lit(l) => !(l is Number),
        _ => false,
    }
}

pub open spec fn atom(e: ExprV) -> Seq<char>
    decreases e, 2int,
{
    if is_atom(e) {
        expr_text(e)
    } else {
        "("@ + expr_text(e) + ")"@
    }
}

pub open spec fn exprs_text(v: Seq<ExprV>) -> Seq<char>
    decreases v, 0int,
{
    if v.len() == 0 {
        Seq::empty()
    } else {
        exprs_text(v.drop_last()) + comma(v.len() == 1) + expr_text(v.last())
    }
}

/// The dot in front of a field set, unless the path is one.
pub open spec fn set_dot(p: PathExprV) -> Seq<char> {
    if p.root is Identity && p.segments.len() == 0 {
        Seq::empty()
    } else {
        "."@
    }
}

pub open spec fn path_text(p: PathExprV) -> Seq<char>
    decreases p, 0int,
{
    segs_text(p.root, p.segments)
}

pub open spec fn root_text(r: PathRootV) -> Seq<char> {
    match r {
        PathRootV::Identity => "."@,
        PathRootV::Name(n) => n,
    }
}

/// The dot in front of a segment; the root's own dot serves the first one.
pub open spec fn seg_dot(root: PathRootV, first: bool) -> Seq<char> {
    if root is Identity && first {
        Seq::empty()
    } else {
        "."@
    }
}

pub open spec fn segs_text(root: PathRootV, v: Seq<PathSegV>) -> Seq<char>
    decreases v, 1int,
{
    if v.len() == 0 {
        root_text(root)
    } else {
        segs_text(root, v.drop_last()) + seg_text(root, v.last(), v.len() == 1)
    }
}

pub open spec fn seg_text(root: PathRootV, s: PathSegV, first: bool) -> Seq<char>
    decreases s, 0int,
{
    match s {
        PathSegV::Field(n) => seg_dot(root, first) + name_text(n),
        PathSegV::Index(i) => "["@ + int_text(i as int) + "]"@,
        PathSegV::Iterate => "[]"@,
        PathSegV::StarStar => seg_dot(root, first) + "**"@,
        PathSegV::FieldSet(items) => seg_dot(root, first) + "{"@ + items_text(items) + "}"@,
    }
}

pub open spec fn items_text(v: Seq<FieldSetItemV>) -> Seq<char>
    decreases v, 0int,
{
    if v.len() == 0 {
        Seq::empty()
    } else {
        items_text(v.drop_last()) + comma(v.len() == 1) + item_text(v.last())
    }
}

pub open spec fn item_text(x: FieldSetItemV) -> Seq<char>
    decreases x, 0int,
{
    match x {
        FieldSetItemV::Field(n) => name_text(n),
        FieldSetItemV::Spread(n) => "..."@ + n,
        FieldSetItemV::Override(n, e) => name_text(n) + ": "@ + expr_text(e),
    }
}

pub open spec fn object_text(v: Seq<ObjectFieldV>) -> Seq<char>
    decreases v, 0int,
{
    if v.len() == 0 {
        Seq::empty()
    } else {
        object_text(v.drop_last()) + comma(v.len() == 1) + field_text(v.last())
    }
}

pub open spec fn field_text(f: ObjectFieldV) -> Seq<char>
    decreases f, 0int,
{
    name_text(f.name) + ": "@ + expr_text(f.value) + suffix(" ?? "@, f.default)
}

/// An object over several lines, its last one indented by `pad`.
pub open spec fn object_block(v: Seq<ObjectFieldV>, pad: Seq<char>) -> Seq<char>
    decreases v, 1int,
{
    "{\n"@ + object_lines(v, v.len(), pad + "  "@) + pad + "}"@
}

/// The lines of the first fields of an object of `n`.
pub open spec fn object_lines(v: Seq<ObjectFieldV>, n: nat, pad: Seq<char>) -> Seq<char>
    decreases v, 0int,
{
    if v.len() == 0 {
        Seq::empty()
    } else {
        object_lines(v.drop_last(), n, pad) + pad + field_block(v.last(), pad) + line_end(
            v.len() - 1,
            n,
        )
    }
}

pub open spec fn field_block(f: ObjectFieldV, pad: Seq<char>) -> Seq<char>
    decreases f, 0int,
{
    name_text(f.name) + ": "@ + value_block(f.value, pad) + suffix(" ?? "@, f.default)
}

/// A value: an object over several lines, anything else on one.
pub open spec fn value_block(e: ExprV, pad: Seq<char>) -> Seq<char>
    decreases e, 2int,
{
    match e {
        ExprV::Object(fields) => object_block(fields, pad),
        _ => expr_text(e),
    }
}

/// `fields NAME = { .. }`.
pub open spec fn set_def_text(d: FieldSetDefV) -> Seq<char> {
    "fields "@ + d.name + " = {\n"@ + set_lines(d.fields, d.fields.len()) + "}\n"@
}

pub open spec fn set_lines(v: Seq<Seq<char>>, n: nat) -> Seq<char>
    decreases v.len(),
{
    if v.len() == 0 {
        Seq::empty()
    } else {
        set_lines(v.drop_last(), n) + "  "@ + name_text(v.last()) + line_end(v.len() - 1, n)
    }
}

pub open spec fn set_defs_text(v: Seq<FieldSetDefV>) -> Seq<char>
    decreases v.len(),
{
    if v.len() == 0 {
        Seq::empty()
    } else {
        set_defs_text(v.drop_last()) + set_def_text(v.last())
    }
}

pub open spec fn join_text(j: JoinClauseV) -> Seq<char>
    decreases j, 0int,
{
    (match j.kind {
        JoinKind::Inner => "\njoin "@,
        JoinKind::Left => "\nleft join "@,
    }) + path_text(j.path) + " as "@ + j.alias + "\n  on "@ + expr_text(j.on)
}

pub open spec fn joins_text(v: Seq<JoinClauseV>) -> Seq<char>
    decreases v, 0int,
{
    if v.len() == 0 {
        Seq::empty()
    } else {
        joins_text(v.drop_last()) + join_text(v.last())
    }
}

pub open spec fn unnest_text(u: UnnestClauseV) -> Seq<char>
    decreases u, 0int,
{
    "\nunnest "@ + beside_word(u.expr, 0) + " as "@ + u.alias
}

pub open spec fn unnests_text(v: Seq<UnnestClauseV>) -> Seq<char>
    decreases v, 0int,
{
    if v.len() == 0 {
        Seq::empty()
    } else {
        unnests_text(v.drop_last()) + unnest_text(v.last())
    }
}

/// The items of a field set from `i` on, packed into lines. `line` is the
/// width of the line so far.
pub open spec fn packed(v: Seq<Seq<char>>, i: int, line: int) -> Seq<char>
    decreases v.len() - i,
{
    if !(0 <= i < v.len()) {
        Seq::empty()
    } else {
        let next = line + utf8_of(v[i]).len() + 2;
        if i + 1 == v.len() {
            v[i] + ",\n"@
        } else if next + packed_width(v, i + 1) > MAX_WIDTH {
            v[i] + ",\n    "@ + packed(v, i + 1, 4)
        } else {
            v[i] + ", "@ + packed(v, i + 1, next)
        }
    }
}

/// The width that item `i` needs, with what ends it.
pub open spec fn packed_width(v: Seq<Seq<char>>, i: int) -> int {
    utf8_of(v[i]).len() + if i + 1 == v.len() {
        1int
    } else {
        2int
    }
}

pub open spec fn item_texts(v: Seq<FieldSetItemV>) -> Seq<Seq<char>>
    decreases v, 0int,
{
    Seq::new(
        v.len(),
        |i: int|
            if 0 <= i < v.len() {
                item_text(v[i])
            } else {
                arbitrary()
            },
    )
}

/// A condition that starts at column `column`: a field set that does not fit
/// on the line is packed into several.
pub open spec fn term_text(e: ExprV, min: int, column: int) -> Seq<char>
    decreases e, 3int,
{
    match e {
        ExprV::FieldSetCompare { base, items, op, rhs } => if column + utf8_of(
            expr_text(e),
        ).len() <= MAX_WIDTH {
            expr_text(e)
        } else {
            path_text(base) + set_dot(base) + "{\n    "@ + packed(item_texts(items), 0, 4) + "  } "@
                + op.symbol() + " "@ + compared(*rhs, op)
        },
        _ => beside_word(e, min),
    }
}

/// The conjuncts of a condition, one per line.
pub open spec fn conjuncts_text(e: ExprV) -> Seq<char>
    decreases e, 4int,
{
    match e {
        ExprV::And(l, r) => conjuncts_text(*l) + "\nand "@ + term_text(*r, 2, 4),
        _ => term_text(e, 1, 6),
    }
}

pub open spec fn where_text(o: Option<ExprV>) -> Seq<char>
    decreases o, 0int,
{
    match o {
        Some(e) => "\nwhere "@ + conjuncts_text(e),
        None => Seq::empty(),
    }
}

pub open spec fn let_text(l: AliasLetV) -> Seq<char>
    decreases l, 0int,
{
    l.name + " = "@ + expr_text(l.expr)
}

/// The aliases of a `let` clause, in one column.
pub open spec fn lets_text(v: Seq<AliasLetV>) -> Seq<char>
    decreases v, 0int,
{
    if v.len() == 0 {
        Seq::empty()
    } else {
        lets_text(v.drop_last()) + (if v.len() == 1 {
            "\nlet "@
        } else {
            ",\n    "@
        }) + let_text(v.last())
    }
}

pub open spec fn agg_item_text(x: AggBlockItemV) -> Seq<char>
    decreases x, 1int,
{
    name_text(x.name) + ": "@ + value_block(x.output, "  "@) + suffix(" where "@, x.where_pred)
        + suffix(" ?? "@, x.default)
}

/// An optional expression after a word.
pub open spec fn suffix(word: Seq<char>, o: Option<ExprV>) -> Seq<char>
    decreases o, 0int,
{
    match o {
        Some(e) => word + expr_text(e),
        None => Seq::empty(),
    }
}

pub open spec fn agg_lines(v: Seq<AggBlockItemV>, n: nat) -> Seq<char>
    decreases v, 0int,
{
    if v.len() == 0 {
        Seq::empty()
    } else {
        agg_lines(v.drop_last(), n) + "  "@ + agg_item_text(v.last()) + line_end(v.len() - 1, n)
    }
}

pub open spec fn block_text(b: AggregateBlockV) -> Seq<char>
    decreases b, 0int,
{
    let head = "\naggregate {\n"@ + agg_lines(b.reductions, b.reductions.len()) + "}"@;
    if b.group_by.len() == 0 {
        head
    } else if b.rollup {
        head + " by rollup("@ + exprs_text(b.group_by) + ")"@
    } else {
        head + " by "@ + exprs_text(b.group_by)
    }
}

pub open spec fn aggregate_text(o: Option<AggregateClauseV>) -> Seq<char>
    decreases o, 0int,
{
    match o {
        Some(AggregateClauseV::Block(b)) => block_text(b),
        Some(AggregateClauseV::Group(g)) => "\ncollect by "@ + expr_text(g.key),
        None => Seq::empty(),
    }
}

pub open spec fn having_text(o: Option<ExprV>) -> Seq<char>
    decreases o, 0int,
{
    match o {
        Some(e) => "\nhaving "@ + expr_text(e),
        None => Seq::empty(),
    }
}

pub open spec fn select_lines(v: Seq<(Seq<char>, ExprV)>, n: nat) -> Seq<char>
    decreases v, 0int,
{
    if v.len() == 0 {
        Seq::empty()
    } else {
        select_lines(v.drop_last(), n) + "  "@ + select_field_text(v.last()) + line_end(
            v.len() - 1,
            n,
        )
    }
}

pub open spec fn select_field_text(f: (Seq<char>, ExprV)) -> Seq<char>
    decreases f, 0int,
{
    name_text(f.0) + ": "@ + expr_text(f.1)
}

pub open spec fn select_text(o: Option<Seq<(Seq<char>, ExprV)>>) -> Seq<char>
    decreases o, 0int,
{
    match o {
        Some(v) => "\nselect {\n"@ + select_lines(v, v.len()) + "}"@,
        None => Seq::empty(),
    }
}

pub open spec fn order_key_text(k: OrderKeyV) -> Seq<char>
    decreases k, 0int,
{
    if k.desc {
        expr_text(k.expr) + " desc"@
    } else {
        expr_text(k.expr)
    }
}

pub open spec fn order_text(v: Seq<OrderKeyV>) -> Seq<char>
    decreases v, 0int,
{
    if v.len() == 0 {
        Seq::empty()
    } else {
        order_text(v.drop_last()) + (if v.len() == 1 {
            "\norder by "@
        } else {
            ", "@
        }) + order_key_text(v.last())
    }
}

pub open spec fn limit_text(o: Option<u64>) -> Seq<char> {
    match o {
        Some(n) => "\nlimit "@ + decimal_text(n as nat),
        None => Seq::empty(),
    }
}

/// A query in the fixed layout.
pub open spec fn query_text(q: QueryV) -> Seq<char>
    decreases q, 0int,
{
    set_defs_text(q.field_sets) + (if q.field_sets.len() == 0 {
        Seq::empty()
    } else {
        "\n"@
    }) + "from "@ + path_text(q.source.path) + " as "@ + q.source.alias + joins_text(q.joins)
        + unnests_text(q.unnests) + where_text(q.where_clause) + lets_text(q.alias_lets) + (
    if q.distinct {
        "\ndistinct"@
    } else {
        Seq::empty()
    }) + aggregate_text(q.aggregate) + having_text(q.having) + select_text(q.project)
        + order_text(q.order_by) + limit_text(q.limit)
}

/// A name, quoted where it is no identifier.
fn name_string(name: &str) -> (s: String)
    ensures
        s@ == name_text(name@),
{
    let mut out = String::new();
    push_name(&mut out, name);
    assert(out@ =~= name_text(name@));
    out
}

fn int_string(i: i64) -> (s: String)
    ensures
        s@ == int_text(i as int),
{
    let mut out = String::new();
    push_int(&mut out, i);
    assert(out@ =~= int_text(i as int));
    out
}

/// The bytes of a text.
fn byte_len(s: &str) -> (n: usize)
    ensures
        n == utf8_of(s@).len(),
{
    utf8(s).len()
}

fn empty() -> (s: &'static str)
    ensures
        s@ == Seq::<char>::empty(),
{
    proof {
        reveal_strlit("");
    }
    assert(""@ =~= Seq::<char>::empty());
    ""
}

fn comma_string(first: bool) -> (s: &'static str)
    ensures
        s@ == comma(first),
{
    if first {
        empty()
    } else {
        ", "
    }
}

fn line_end_string(i: usize, n: usize) -> (s: &'static str)
    requires
        i < n,
    ensures
        s@ == line_end(i as int, n as nat),
{
    if i + 1 < n {
        ",\n"
    } else {
        "\n"
    }
}

fn reducer_word(op: AggOp) -> (s: &'static str)
    ensures
        s@ == reducer_name(op),
{
    match op {
        AggOp::Sum => kw::SUM,
        AggOp::Count => kw::COUNT,
        AggOp::Avg => kw::AVG,
        AggOp::Min => kw::MIN,
        AggOp::Max => kw::MAX,
    }
}

fn literal_string(s: &str) -> (out: String)
    ensures
        out@ == "\""@ + literal_chars(s@) + "\""@,
{
    let chars = chars_of(s);
    let mut out = "\"".to_string();
    let mut i: usize = 0;
    assert(out@ =~= "\""@ + literal_chars(chars@.take(0)));
    while i < chars.len()
        invariant
            i <= chars@.len(),
            chars@ == s@,
            out@ == "\""@ + literal_chars(chars@.take(i as int)),
        decreases chars@.len() - i,
    {
        let ghost before = out@;
        let ghost next = chars@.take(i + 1);
        assert(next.drop_last() =~= chars@.take(i as int));
        assert(next.last() == chars@[i as int]);
        let c = chars[i];
        if c == '"' {
            out.append("\\\"");
        } else if c == '\\' {
            out.append("\\\\");
        } else if c == '\n' {
            out.append("\\n");
        } else if c == '\r' {
            out.append("\\r");
        } else if c == '\t' {
            out.append("\\t");
        } else {
            out.push(c);
            assert(out@ =~= before + seq![c]);
        }
        assert(out@ == before + literal_char(c));
        assert(out@ =~= "\""@ + literal_chars(next));
        i += 1;
    }
    assert(chars@.take(i as int) =~= s@);
    out.append("\"");
    out
}

fn lit_string(l: &Lit) -> (out: String)
    ensures
        out@ == lit_text(l@),
{
    match l {
        Lit::Number(n) => n.clone(),
        Lit::Str(s) => literal_string(s.as_str()),
        Lit::Bool(b) => if *b {
            kw::TRUE.to_string()
        } else {
            kw::FALSE.to_string()
        },
        Lit::Null => kw::NULL.to_string(),
    }
}

/// How tightly an expression binds.
#[verifier::spinoff_prover]
fn expr_level(e: &Expr) -> (n: u8)
    ensures
        n == level(e@),
{
    proof {
        reveal(expr_view);
    }
    match e {
        Expr::Or(..) => 0,
        Expr::And(..) => 1,
        Expr::Not(..) => 2,
        Expr::Compare(..) => 3,
        Expr::In(..) => 3,
        Expr::NotIn(..) => 3,
        Expr::Exists(..) => 3,
        Expr::TypeTest { .. } => 3,
        Expr::FieldSetCompare { .. } => 3,
        Expr::Binary { op, .. } => binary_level(*op),
        Expr::Neg(..) => 6,
        _ => 7,
    }
}

fn binary_level(op: BinaryOp) -> (n: u8)
    ensures
        n == op_level(op),
{
    match op {
        BinaryOp::Add | BinaryOp::Sub => 4,
        BinaryOp::Mul | BinaryOp::Div => 5,
    }
}

/// An expression on one line.
#[verifier::spinoff_prover]
fn expr_string(e: &Expr) -> (out: String)
    ensures
        out@ == expr_text(e@),
    decreases e, 5int,
{
    match e {
        Expr::Compare(..)
        | Expr::In(..)
        | Expr::NotIn(..)
        | Expr::And(..)
        | Expr::Or(..)
        | Expr::Not(..)
        | Expr::Exists(..)
        | Expr::TypeTest { .. }
        | Expr::FieldSetCompare { .. } => logic_string(e),
        _ => value_string(e),
    }
}

/// A condition on one line.
#[verifier::spinoff_prover]
#[verifier::rlimit(40)]
fn logic_string(e: &Expr) -> (out: String)
    requires
        e is Compare || e is In || e is NotIn || e is And || e is Or || e is Not || e is Exists
            || e is TypeTest || e is FieldSetCompare,
    ensures
        out@ == expr_text(e@),
    decreases e, 4int,
{
    proof {
        reveal(expr_view);
        reveal(path_view);
        reveal(item_views);
    }
    match e {
        Expr::Compare(l, op, r) => {
            let mut out = compared_string(l, *op);
            out.append(" ");
            out.append(op.as_str());
            out.append(" ");
            out.append(compared_string(r, *op).as_str());
            out
        },
        Expr::In(l, r) => {
            let mut out = beside_word_string(l, 4);
            out.append(" in ");
            out.append(beside_word_string(r, 4).as_str());
            out
        },
        Expr::NotIn(l, r) => {
            let mut out = beside_word_string(l, 4);
            out.append(" not in ");
            out.append(beside_word_string(r, 4).as_str());
            out
        },
        Expr::And(l, r) => {
            let mut out = beside_word_string(l, 1);
            out.append(" and ");
            out.append(beside_word_string(r, 2).as_str());
            out
        },
        Expr::Or(l, r) => {
            let mut out = beside_word_string(l, 0);
            out.append(" or ");
            out.append(beside_word_string(r, 1).as_str());
            out
        },
        Expr::Not(x) => {
            let mut out = "not ".to_string();
            out.append(beside_word_string(x, 2).as_str());
            out
        },
        Expr::Exists(x) => {
            let mut out = beside_word_string(x, 4);
            out.append(" exists");
            out
        },
        Expr::TypeTest { value, kind, negated } => {
            let mut out = beside_word_string(value, 4);
            out.append(if *negated {
                    " is not "
                } else {
                    " is "
                });
            out.append(kind.keyword());
            out
        },
        Expr::FieldSetCompare { base, items, op, rhs } => {
            let mut out = path_string(base);
            out.append(set_dot_string(base));
            out.append("{");
            out.append(items_string(items).as_str());
            out.append("} ");
            out.append(op.as_str());
            out.append(" ");
            out.append(compared_string(rhs, *op).as_str());
            out
        },
        _ => String::new(),
    }
}

/// A value on one line.
#[verifier::spinoff_prover]
#[verifier::rlimit(40)]
fn value_string(e: &Expr) -> (out: String)
    requires
        e is Binary || e is Neg || e is Reducer || e is Object || e is If || e is Path || e is Lit
            || e is Param || e is Array || e is Call || e is Subquery,
    ensures
        out@ == expr_text(e@),
    decreases e, 4int,
{
    proof {
        reveal(expr_view);
        reveal(path_view);
        reveal(expr_views);
        reveal(object_views);
        reveal(query_view);
    }
    match e {
        Expr::Binary { op, lhs, rhs } => {
            let mut out = operand_string(lhs, binary_level(*op));
            out.append(" ");
            out.append(op.as_str());
            out.append(" ");
            out.append(operand_string(rhs, binary_level(*op) + 1).as_str());
            out
        },
        Expr::Neg(x) => {
            let mut out = "-".to_string();
            out.append(atom_string(x).as_str());
            out
        },
        Expr::Reducer { op, arg } => match arg {
            Some(a) => {
                let mut out = reducer_word(*op).to_string();
                out.append("(");
                out.append(expr_string(a).as_str());
                out.append(")");
                out
            },
            None => {
                let mut out = reducer_word(*op).to_string();
                out.append("()");
                out
            },
        },
        Expr::Object(fields) => {
            let mut out = "{".to_string();
            out.append(object_string(fields).as_str());
            out.append("}");
            out
        },
        Expr::If { cond, then_branch, else_branch } => {
            let mut out = "if(".to_string();
            out.append(expr_string(cond).as_str());
            out.append(", ");
            out.append(expr_string(then_branch).as_str());
            out.append(", ");
            out.append(expr_string(else_branch).as_str());
            out.append(")");
            out
        },
        Expr::Path(p) => path_string(p),
        Expr::Lit(l) => lit_string(l),
        Expr::Param(n) => {
            let mut out = "$".to_string();
            out.append(n.as_str());
            out
        },
        Expr::Array(v) => {
            let mut out = "[".to_string();
            out.append(exprs_string(v).as_str());
            out.append("]");
            out
        },
        Expr::Call(n, args) => {
            let mut out = n.clone();
            out.append("(");
            out.append(exprs_string(args).as_str());
            out.append(")");
            out
        },
        Expr::Subquery(q) => {
            let mut out = "(".to_string();
            out.append(format_query(q).as_str());
            out.append(")");
            out
        },
        _ => String::new(),
    }
}

/// An operand, in parentheses where it binds less tightly than `min`.
#[verifier::spinoff_prover]
fn operand_string(e: &Expr, min: u8) -> (out: String)
    ensures
        out@ == operand(e@, min as int),
    decreases e, 6int,
{
    if expr_level(e) < min {
        let mut out = "(".to_string();
        out.append(expr_string(e).as_str());
        out.append(")");
        out
    } else {
        expr_string(e)
    }
}

/// Whether the text starts with the sign of a number.
#[verifier::spinoff_prover]
fn begins_signed(e: &Expr) -> (b: bool)
    ensures
        b == starts_signed(e@),
    decreases e,
{
    proof {
        reveal(expr_view);
    }
    match e {
        Expr::Lit(l) => {
            assert(e@ == ExprV::Lit(l@));
            match l {
                Lit::Number(n) => n.as_str().unicode_len() > 0 && n.as_str().get_char(0) == '-',
                _ => false,
            }
        },
        Expr::Binary { op, lhs, .. } => expr_level(lhs) >= binary_level(*op) && begins_signed(lhs),
        Expr::Compare(l, op, _) => !is_word_op(*op) && expr_level(l) >= 4 && begins_signed(l),
        _ => false,
    }
}

/// Whether the text ends with a lone dot.
#[verifier::spinoff_prover]
fn ends_dotted(e: &Expr) -> (b: bool)
    ensures
        b == ends_in_dot(e@),
    decreases e,
{
    proof {
        reveal(expr_view);
        reveal(path_view);
        reveal(seg_views);
    }
    match e {
        Expr::Path(p) => {
            assert(e@ == ExprV::Path(path_view(*p)));
            assert(seg_views(p.segments@).len() == p.segments@.len());
            matches!(&p.root, PathRoot::Identity) && p.segments.len() == 0
        },
        Expr::Neg(x) => ends_dotted(x),
        Expr::Binary { op, rhs, .. } => expr_level(rhs) > binary_level(*op) && ends_dotted(rhs),
        Expr::Compare(_, op, r) => !is_word_op(*op) && expr_level(r) >= 4 && ends_dotted(r),
        _ => false,
    }
}

fn is_word_op(op: CompareOp) -> (b: bool)
    ensures
        b == is_word(op),
{
    op == CompareOp::Contains || op == CompareOp::StartsWith || op == CompareOp::EndsWith || op
        == CompareOp::Matches
}

/// An operand next to a word.
#[verifier::spinoff_prover]
fn beside_word_string(e: &Expr, min: u8) -> (out: String)
    ensures
        out@ == beside_word(e@, min as int),
    decreases e, 6int,
{
    if expr_level(e) < min || begins_signed(e) || ends_dotted(e) {
        let mut out = "(".to_string();
        out.append(expr_string(e).as_str());
        out.append(")");
        out
    } else {
        expr_string(e)
    }
}

/// An operand of a comparison.
#[verifier::spinoff_prover]
fn compared_string(e: &Expr, op: CompareOp) -> (out: String)
    ensures
        out@ == compared(e@, op),
    decreases e, 7int,
{
    if is_word_op(op) {
        beside_word_string(e, 4)
    } else {
        operand_string(e, 4)
    }
}

/// The operand of a minus sign.
#[verifier::spinoff_prover]
fn atom_string(e: &Expr) -> (out: String)
    ensures
        out@ == atom(e@),
    decreases e, 6int,
{
    proof {
        reveal(expr_view);
    }
    let bare = match e {
        Expr::Path(_) => true,
        Expr::Reducer { .. } => true,
        Expr::Lit(l) => !matches!(l, Lit::Number(_)),
        _ => false,
    };
    if bare {
        expr_string(e)
    } else {
        let mut out = "(".to_string();
        out.append(expr_string(e).as_str());
        out.append(")");
        out
    }
}

/// The dot in front of a field set, unless the path is one.
#[verifier::spinoff_prover]
fn set_dot_string(p: &PathExpr) -> (s: &'static str)
    ensures
        s@ == set_dot(p@),
{
    proof {
        reveal(path_view);
        reveal(seg_views);
    }
    if matches!(&p.root, PathRoot::Identity) && p.segments.len() == 0 {
        empty()
    } else {
        "."
    }
}

fn seg_dot_string(root: &PathRoot, first: bool) -> (s: &'static str)
    ensures
        s@ == seg_dot(root@, first),
{
    if first && matches!(root, PathRoot::Identity) {
        empty()
    } else {
        "."
    }
}

/// A path.
#[verifier::spinoff_prover]
fn path_string(p: &PathExpr) -> (out: String)
    ensures
        out@ == path_text(p@),
    decreases p, 0int,
{
    proof {
        reveal(path_view);
        reveal(seg_views);
    }
    segs_string(&p.root, &p.segments)
}

#[verifier::spinoff_prover]
fn segs_string(root: &PathRoot, v: &Vec<PathSeg>) -> (out: String)
    ensures
        out@ == segs_text(root@, seg_views(v@)),
    decreases v, 0int,
{
    let ghost all = seg_views(v@);
    let mut out = match root {
        PathRoot::Identity => ".".to_string(),
        PathRoot::Name(n) => n.clone(),
    };
    let mut i: usize = 0;
    assert(all.take(0) =~= Seq::<PathSegV>::empty());
    while i < v.len()
        invariant
            i <= v@.len(),
            all == seg_views(v@),
            out@ == segs_text(root@, all.take(i as int)),
        decreases v@.len() - i,
    {
        proof {
            reveal(seg_views);
            reveal(seg_view);
        }
        let ghost next = all.take(i + 1);
        assert(all.len() == v@.len());
        assert(next.drop_last() =~= all.take(i as int));
        assert(next.last() == all[i as int]);
        assert(all[i as int] == v@[i as int]@);
        assert(decreases_to!(v => v@[i as int]));
        out.append(seg_string(root, &v[i], i == 0).as_str());
        i += 1;
        assert(out@ == segs_text(root@, next));
    }
    proof {
        reveal(seg_views);
    }
    assert(all.take(i as int) =~= all);
    out
}

#[verifier::spinoff_prover]
fn seg_string(root: &PathRoot, s: &PathSeg, first: bool) -> (out: String)
    ensures
        out@ == seg_text(root@, s@, first),
    decreases s, 0int,
{
    proof {
        reveal(seg_view);
        reveal(item_views);
    }
    match s {
        PathSeg::Field(n) => {
            let mut out = seg_dot_string(root, first).to_string();
            out.append(name_string(n.as_str()).as_str());
            out
        },
        PathSeg::Index(i) => {
            let mut out = "[".to_string();
            out.append(int_string(*i).as_str());
            out.append("]");
            out
        },
        PathSeg::Iterate => "[]".to_string(),
        PathSeg::StarStar => {
            let mut out = seg_dot_string(root, first).to_string();
            out.append("**");
            out
        },
        PathSeg::FieldSet(items) => {
            let mut out = seg_dot_string(root, first).to_string();
            out.append("{");
            out.append(items_string(items).as_str());
            out.append("}");
            out
        },
    }
}

/// Expressions, separated by commas.
#[verifier::spinoff_prover]
fn exprs_string(v: &Vec<Expr>) -> (out: String)
    ensures
        out@ == exprs_text(expr_views(v@)),
    decreases v, 0int,
{
    let ghost all = expr_views(v@);
    let mut out = String::new();
    let mut i: usize = 0;
    proof {
        reveal(expr_views);
        reveal(expr_view);
    }
    assert(out@ =~= exprs_text(all.take(0)));
    while i < v.len()
        invariant
            i <= v@.len(),
            all == expr_views(v@),
            out@ == exprs_text(all.take(i as int)),
        decreases v@.len() - i,
    {
        proof {
            reveal(expr_views);
            reveal(expr_view);
        }
        let ghost next = all.take(i + 1);
        assert(all.len() == v@.len());
        assert(next.drop_last() =~= all.take(i as int));
        assert(next.last() == all[i as int]);
        assert(decreases_to!(v => v@[i as int]));
        out.append(comma_string(i == 0));
        out.append(expr_string(&v[i]).as_str());
        i += 1;
        assert(out@ == exprs_text(next));
    }
    assert(all.take(i as int) =~= all);
    out
}

/// The items of a field set.
#[verifier::spinoff_prover]
fn items_string(v: &Vec<FieldSetItem>) -> (out: String)
    ensures
        out@ == items_text(item_views(v@)),
    decreases v, 0int,
{
    let ghost all = item_views(v@);
    let mut out = String::new();
    let mut i: usize = 0;
    proof {
        reveal(item_views);
        reveal(item_view);
    }
    assert(out@ =~= items_text(all.take(0)));
    while i < v.len()
        invariant
            i <= v@.len(),
            all == item_views(v@),
            out@ == items_text(all.take(i as int)),
        decreases v@.len() - i,
    {
        proof {
            reveal(item_views);
            reveal(item_view);
        }
        let ghost next = all.take(i + 1);
        assert(all.len() == v@.len());
        assert(next.drop_last() =~= all.take(i as int));
        assert(next.last() == all[i as int]);
        assert(decreases_to!(v => v@[i as int]));
        out.append(comma_string(i == 0));
        out.append(item_string(&v[i]).as_str());
        i += 1;
        assert(out@ == items_text(next));
    }
    assert(all.take(i as int) =~= all);
    out
}

/// The fields of an object.
#[verifier::spinoff_prover]
fn object_string(v: &Vec<ObjectField>) -> (out: String)
    ensures
        out@ == object_text(object_views(v@)),
    decreases v, 0int,
{
    let ghost all = object_views(v@);
    let mut out = String::new();
    let mut i: usize = 0;
    proof {
        reveal(object_views);
        reveal(object_view);
    }
    assert(out@ =~= object_text(all.take(0)));
    while i < v.len()
        invariant
            i <= v@.len(),
            all == object_views(v@),
            out@ == object_text(all.take(i as int)),
        decreases v@.len() - i,
    {
        proof {
            reveal(object_views);
            reveal(object_view);
        }
        let ghost next = all.take(i + 1);
        assert(all.len() == v@.len());
        assert(next.drop_last() =~= all.take(i as int));
        assert(next.last() == all[i as int]);
        assert(decreases_to!(v => v@[i as int]));
        out.append(comma_string(i == 0));
        out.append(field_string(&v[i]).as_str());
        i += 1;
        assert(out@ == object_text(next));
    }
    assert(all.take(i as int) =~= all);
    out
}

/// One item of a field set.
#[verifier::spinoff_prover]
fn item_string(x: &FieldSetItem) -> (out: String)
    ensures
        out@ == item_text(x@),
    decreases x, 0int,
{
    proof {
        reveal(item_view);
        reveal(expr_view);
    }
    match x {
        FieldSetItem::Field(n) => name_string(n.as_str()),
        FieldSetItem::Spread(n) => {
            let mut out = "...".to_string();
            out.append(n.as_str());
            out
        },
        FieldSetItem::Override(n, e) => {
            let mut out = name_string(n.as_str());
            out.append(": ");
            out.append(expr_string(e).as_str());
            out
        },
    }
}

/// One field of an object.
#[verifier::spinoff_prover]
fn field_string(f: &ObjectField) -> (out: String)
    ensures
        out@ == field_text(f@),
    decreases f, 0int,
{
    proof {
        reveal(object_view);
        reveal(opt_expr_view);
        reveal(expr_view);
    }
    let mut out = name_string(f.name.as_str());
    out.append(": ");
    out.append(expr_string(&f.value).as_str());
    out.append(suffix_string(" ?? ", &f.default).as_str());
    out
}

/// One field of an object over several lines.
#[verifier::spinoff_prover]
fn field_block_string(f: &ObjectField, pad: &str) -> (out: String)
    ensures
        out@ == field_block(f@, pad@),
    decreases f, 0int,
{
    proof {
        reveal(object_view);
        reveal(opt_expr_view);
        reveal(expr_view);
    }
    let mut out = name_string(f.name.as_str());
    out.append(": ");
    out.append(value_block_string(&f.value, pad).as_str());
    out.append(suffix_string(" ?? ", &f.default).as_str());
    out
}

/// A value: an object over several lines, anything else on one.
#[verifier::spinoff_prover]
fn value_block_string(e: &Expr, pad: &str) -> (out: String)
    ensures
        out@ == value_block(e@, pad@),
    decreases e, 7int,
{
    proof {
        reveal(expr_view);
        reveal(object_views);
    }
    match e {
        Expr::Object(fields) => object_block_string(fields, pad),
        _ => expr_string(e),
    }
}

/// An object over several lines.
#[verifier::spinoff_prover]
fn object_block_string(v: &Vec<ObjectField>, pad: &str) -> (out: String)
    ensures
        out@ == object_block(object_views(v@), pad@),
    decreases v, 1int,
{
    proof {
        reveal(object_views);
    }
    let mut inner = pad.to_string();
    inner.append("  ");
    let mut out = "{\n".to_string();
    out.append(object_lines_string(v, v.len(), inner.as_str()).as_str());
    out.append(pad);
    out.append("}");
    out
}

/// The lines of an object.
#[verifier::spinoff_prover]
fn object_lines_string(v: &Vec<ObjectField>, n: usize, pad: &str) -> (out: String)
    requires
        n == v@.len(),
    ensures
        out@ == object_lines(object_views(v@), n as nat, pad@),
    decreases v, 0int,
{
    let ghost all = object_views(v@);
    let mut out = String::new();
    let mut i: usize = 0;
    proof {
        reveal(object_views);
        reveal(object_view);
    }
    assert(out@ =~= object_lines(all.take(0), n as nat, pad@));
    while i < v.len()
        invariant
            n == v@.len(),
            i <= v@.len(),
            all == object_views(v@),
            out@ == object_lines(all.take(i as int), n as nat, pad@),
        decreases v@.len() - i,
    {
        proof {
            reveal(object_views);
            reveal(object_view);
        }
        let ghost next = all.take(i + 1);
        assert(all.len() == v@.len());
        assert(next.drop_last() =~= all.take(i as int));
        assert(next.last() == all[i as int]);
        assert(decreases_to!(v => v@[i as int]));
        out.append(pad);
        out.append(field_block_string(&v[i], pad).as_str());
        out.append(line_end_string(i, n));
        i += 1;
        assert(out@ == object_lines(next, n as nat, pad@));
    }
    assert(all.take(i as int) =~= all);
    out
}

/// The lines of a field set.
#[verifier::spinoff_prover]
fn set_lines_string(v: &Vec<String>, n: usize) -> (out: String)
    requires
        n == v@.len(),
    ensures
        out@ == set_lines(texts(v@), n as nat),
{
    let ghost all = texts(v@);
    let mut out = String::new();
    let mut i: usize = 0;
    assert(out@ =~= set_lines(all.take(0), n as nat));
    while i < v.len()
        invariant
            n == v@.len(),
            i <= v@.len(),
            all == texts(v@),
            out@ == set_lines(all.take(i as int), n as nat),
        decreases v@.len() - i,
    {
        let ghost next = all.take(i + 1);
        assert(all.len() == v@.len());
        assert(next.drop_last() =~= all.take(i as int));
        assert(next.last() == all[i as int]);
        out.append("  ");
        out.append(name_string(v[i].as_str()).as_str());
        out.append(line_end_string(i, n));
        i += 1;
        assert(out@ == set_lines(next, n as nat));
    }
    assert(all.take(i as int) =~= all);
    out
}

/// `fields NAME = { .. }`.
fn set_def_string(d: &FieldSetDef) -> (out: String)
    ensures
        out@ == set_def_text(d@),
{
    let mut out = "fields ".to_string();
    out.append(d.name.as_str());
    out.append(" = {\n");
    out.append(set_lines_string(&d.fields, d.fields.len()).as_str());
    out.append("}\n");
    out
}

/// The named field sets.
#[verifier::spinoff_prover]
fn set_defs_string(v: &Vec<FieldSetDef>) -> (out: String)
    ensures
        out@ == set_defs_text(field_set_views(v@)),
{
    let ghost all = field_set_views(v@);
    let mut out = String::new();
    let mut i: usize = 0;
    proof {
        reveal(field_set_views);
    }
    assert(out@ =~= set_defs_text(all.take(0)));
    while i < v.len()
        invariant
            i <= v@.len(),
            all == field_set_views(v@),
            out@ == set_defs_text(all.take(i as int)),
        decreases v@.len() - i,
    {
        proof {
            reveal(field_set_views);
        }
        let ghost next = all.take(i + 1);
        assert(all.len() == v@.len());
        assert(next.drop_last() =~= all.take(i as int));
        assert(next.last() == all[i as int]);
        out.append(set_def_string(&v[i]).as_str());
        i += 1;
        assert(out@ == set_defs_text(next));
    }
    assert(all.take(i as int) =~= all);
    out
}

/// A join.
#[verifier::spinoff_prover]
fn join_string(j: &JoinClause) -> (out: String)
    ensures
        out@ == join_text(j@),
    decreases j, 0int,
{
    proof {
        reveal(join_view);
        reveal(path_view);
        reveal(expr_view);
    }
    let mut out = (match j.kind {
        JoinKind::Inner => "\njoin ",
        JoinKind::Left => "\nleft join ",
    }).to_string();
    out.append(path_string(&j.path).as_str());
    out.append(" as ");
    out.append(j.alias.as_str());
    out.append("\n  on ");
    out.append(expr_string(&j.on).as_str());
    out
}

/// The joins.
#[verifier::spinoff_prover]
fn joins_string(v: &Vec<JoinClause>) -> (out: String)
    ensures
        out@ == joins_text(join_views(v@)),
    decreases v, 0int,
{
    let ghost all = join_views(v@);
    let mut out = String::new();
    let mut i: usize = 0;
    proof {
        reveal(join_views);
        reveal(join_view);
    }
    assert(out@ =~= joins_text(all.take(0)));
    while i < v.len()
        invariant
            i <= v@.len(),
            all == join_views(v@),
            out@ == joins_text(all.take(i as int)),
        decreases v@.len() - i,
    {
        proof {
            reveal(join_views);
            reveal(join_view);
        }
        let ghost next = all.take(i + 1);
        assert(all.len() == v@.len());
        assert(next.drop_last() =~= all.take(i as int));
        assert(next.last() == all[i as int]);
        assert(decreases_to!(v => v@[i as int]));
        out.append(join_string(&v[i]).as_str());
        i += 1;
        assert(out@ == joins_text(next));
    }
    assert(all.take(i as int) =~= all);
    out
}

/// An `unnest` clause.
#[verifier::spinoff_prover]
fn unnest_string(u: &UnnestClause) -> (out: String)
    ensures
        out@ == unnest_text(u@),
    decreases u, 0int,
{
    proof {
        reveal(unnest_view);
        reveal(expr_view);
    }
    let mut out = "\nunnest ".to_string();
    out.append(beside_word_string(&u.expr, 0).as_str());
    out.append(" as ");
    out.append(u.alias.as_str());
    out
}

/// The `unnest` clauses.
#[verifier::spinoff_prover]
fn unnests_string(v: &Vec<UnnestClause>) -> (out: String)
    ensures
        out@ == unnests_text(unnest_views(v@)),
    decreases v, 0int,
{
    let ghost all = unnest_views(v@);
    let mut out = String::new();
    let mut i: usize = 0;
    proof {
        reveal(unnest_views);
        reveal(unnest_view);
    }
    assert(out@ =~= unnests_text(all.take(0)));
    while i < v.len()
        invariant
            i <= v@.len(),
            all == unnest_views(v@),
            out@ == unnests_text(all.take(i as int)),
        decreases v@.len() - i,
    {
        proof {
            reveal(unnest_views);
            reveal(unnest_view);
        }
        let ghost next = all.take(i + 1);
        assert(all.len() == v@.len());
        assert(next.drop_last() =~= all.take(i as int));
        assert(next.last() == all[i as int]);
        assert(decreases_to!(v => v@[i as int]));
        out.append(unnest_string(&v[i]).as_str());
        i += 1;
        assert(out@ == unnests_text(next));
    }
    assert(all.take(i as int) =~= all);
    out
}

/// The items of a field set, each as text.
#[verifier::spinoff_prover]
fn item_strings(v: &Vec<FieldSetItem>) -> (out: Vec<String>)
    ensures
        texts(out@) == item_texts(item_views(v@)),
    decreases v, 0int,
{
    let mut out: Vec<String> = Vec::new();
    let mut i: usize = 0;
    while i < v.len()
        invariant
            i <= v@.len(),
            out@.len() == i,
            forall|k: int| 0 <= k < i ==> (#[trigger] out@[k])@ == item_text(v@[k]@),
        decreases v@.len() - i,
    {
        assert(decreases_to!(v => v@[i as int]));
        out.push(item_string(&v[i]));
        i += 1;
    }
    proof {
        reveal(item_views);
        reveal(item_view);
    }
    assert(texts(out@) =~= item_texts(item_views(v@)));
    out
}

/// Field set items, packed into lines.
fn pack_items(v: &Vec<String>) -> (out: String)
    requires
        v@.len() > 0,
    ensures
        out@ == packed(texts(v@), 0, 4),
{
    let ghost all = texts(v@);
    let mut out = String::new();
    let mut line: usize = 4;
    let mut i: usize = 0;
    assert(out@ + packed(all, 0, 4) =~= packed(all, 0, 4));
    loop
        invariant
            i < v@.len(),
            all == texts(v@),
            packed(all, 0, 4) == out@ + packed(all, i as int, line as int),
            4 <= line,
            line <= MAX_WIDTH || line == 4,
        decreases v@.len() - i,
    {
        let ghost before = out@;
        let item = v[i].as_str();
        out.append(item);
        if i == v.len() - 1 {
            out.append(",\n");
            assert(out@ =~= before + (item@ + ",\n"@));
            return out;
        }
        let last = i == v.len() - 2;
        let mine = byte_len(item);
        let theirs = byte_len(v[i + 1].as_str());
        let fits = mine <= MAX_WIDTH && theirs <= MAX_WIDTH && line + mine + 2 + theirs + (if last {
            1usize
        } else {
            2usize
        }) <= MAX_WIDTH;
        assert(all[i as int] == item@);
        assert(all[i + 1] == v@[i + 1]@);
        if fits {
            line = line + mine + 2;
            out.append(", ");
            assert(out@ + packed(all, i + 1, line as int) =~= before + (item@ + ", "@ + packed(
                all,
                i + 1,
                line as int,
            )));
        } else {
            line = 4;
            out.append(",\n    ");
            assert(out@ + packed(all, i + 1, 4) =~= before + (item@ + ",\n    "@ + packed(
                all,
                i + 1,
                4,
            )));
        }
        i += 1;
    }
}

/// A condition that starts at column `column`.
#[verifier::spinoff_prover]
fn format_predicate_term(e: &Expr, min: u8, column: usize) -> (out: String)
    requires
        column <= 80,
    ensures
        out@ == term_text(e@, min as int, column as int),
    decreases e, 8int,
{
    proof {
        reveal(expr_view);
        reveal(path_view);
        reveal(item_views);
    }
    match e {
        Expr::FieldSetCompare { base, items, op, rhs } => {
            let inline = expr_string(e);
            if byte_len(inline.as_str()) <= 80 - column {
                return inline;
            }
            let mut out = path_string(base);
            out.append(set_dot_string(base));
            out.append("{\n    ");
            let parts = item_strings(items);
            if parts.len() > 0 {
                out.append(pack_items(&parts).as_str());
            } else {
                assert(packed(texts(parts@), 0, 4) =~= Seq::<char>::empty());
                out.append(empty());
            }
            out.append("  } ");
            out.append(op.as_str());
            out.append(" ");
            out.append(compared_string(rhs, *op).as_str());
            out
        },
        _ => beside_word_string(e, min),
    }
}

/// The conjuncts of a condition, one per line.
#[verifier::spinoff_prover]
fn conjuncts_string(e: &Expr) -> (out: String)
    ensures
        out@ == conjuncts_text(e@),
    decreases e, 9int,
{
    proof {
        reveal(expr_view);
    }
    match e {
        Expr::And(l, r) => {
            let mut out = conjuncts_string(l);
            out.append("\nand ");
            out.append(format_predicate_term(r, 2, 4).as_str());
            out
        },
        _ => format_predicate_term(e, 1, 6),
    }
}

/// The `where` clause.
#[verifier::spinoff_prover]
fn format_where(o: &Option<Expr>) -> (out: String)
    ensures
        out@ == where_text(opt_expr_view(*o)),
    decreases o, 0int,
{
    proof {
        reveal(opt_expr_view);
        reveal(expr_view);
    }
    match o {
        Some(e) => {
            let mut out = "\nwhere ".to_string();
            out.append(conjuncts_string(e).as_str());
            out
        },
        None => empty().to_string(),
    }
}

/// One alias.
#[verifier::spinoff_prover]
fn let_string(l: &AliasLet) -> (out: String)
    ensures
        out@ == let_text(l@),
    decreases l, 0int,
{
    proof {
        reveal(let_view);
        reveal(expr_view);
    }
    let mut out = l.name.clone();
    out.append(" = ");
    out.append(expr_string(&l.expr).as_str());
    out
}

/// The `let` clause.
#[verifier::spinoff_prover]
fn lets_string(v: &Vec<AliasLet>) -> (out: String)
    ensures
        out@ == lets_text(let_views(v@)),
    decreases v, 0int,
{
    let ghost all = let_views(v@);
    let mut out = String::new();
    let mut i: usize = 0;
    proof {
        reveal(let_views);
        reveal(let_view);
    }
    assert(out@ =~= lets_text(all.take(0)));
    while i < v.len()
        invariant
            i <= v@.len(),
            all == let_views(v@),
            out@ == lets_text(all.take(i as int)),
        decreases v@.len() - i,
    {
        proof {
            reveal(let_views);
            reveal(let_view);
        }
        let ghost next = all.take(i + 1);
        assert(all.len() == v@.len());
        assert(next.drop_last() =~= all.take(i as int));
        assert(next.last() == all[i as int]);
        assert(decreases_to!(v => v@[i as int]));
        out.append(if i == 0 {
                "\nlet "
            } else {
                ",\n    "
            });
        out.append(let_string(&v[i]).as_str());
        i += 1;
        assert(out@ == lets_text(next));
    }
    assert(all.take(i as int) =~= all);
    out
}

/// An optional expression after a word.
#[verifier::spinoff_prover]
fn suffix_string(word: &str, o: &Option<Expr>) -> (out: String)
    ensures
        out@ == suffix(word@, opt_expr_view(*o)),
    decreases o, 0int,
{
    proof {
        reveal(opt_expr_view);
        reveal(expr_view);
    }
    match o {
        Some(e) => {
            let mut out = word.to_string();
            out.append(expr_string(e).as_str());
            out
        },
        None => empty().to_string(),
    }
}

/// One item of an aggregate block.
#[verifier::spinoff_prover]
fn agg_item_string(x: &AggBlockItem) -> (out: String)
    ensures
        out@ == agg_item_text(x@),
    decreases x, 1int,
{
    proof {
        reveal(agg_item_view);
        reveal(opt_expr_view);
        reveal(expr_view);
    }
    let mut out = name_string(x.name.as_str());
    out.append(": ");
    out.append(value_block_string(&x.output, "  ").as_str());
    out.append(suffix_string(" where ", &x.where_pred).as_str());
    out.append(suffix_string(" ?? ", &x.default).as_str());
    out
}

/// The items of an aggregate block.
#[verifier::spinoff_prover]
fn agg_lines_string(v: &Vec<AggBlockItem>, n: usize) -> (out: String)
    requires
        n == v@.len(),
    ensures
        out@ == agg_lines(agg_item_views(v@), n as nat),
    decreases v, 0int,
{
    let ghost all = agg_item_views(v@);
    let mut out = String::new();
    let mut i: usize = 0;
    proof {
        reveal(agg_item_views);
        reveal(agg_item_view);
    }
    assert(out@ =~= agg_lines(all.take(0), n as nat));
    while i < v.len()
        invariant
            n == v@.len(),
            i <= v@.len(),
            all == agg_item_views(v@),
            out@ == agg_lines(all.take(i as int), n as nat),
        decreases v@.len() - i,
    {
        proof {
            reveal(agg_item_views);
            reveal(agg_item_view);
        }
        let ghost next = all.take(i + 1);
        assert(all.len() == v@.len());
        assert(next.drop_last() =~= all.take(i as int));
        assert(next.last() == all[i as int]);
        assert(decreases_to!(v => v@[i as int]));
        out.append("  ");
        out.append(agg_item_string(&v[i]).as_str());
        out.append(line_end_string(i, n));
        i += 1;
        assert(out@ == agg_lines(next, n as nat));
    }
    assert(all.take(i as int) =~= all);
    out
}

/// An aggregate block.
#[verifier::spinoff_prover]
fn format_aggregate_block(b: &AggregateBlock) -> (out: String)
    ensures
        out@ == block_text(b@),
    decreases b, 0int,
{
    proof {
        reveal(block_view);
        reveal(agg_item_views);
        reveal(expr_views);
    }
    proof {
        expr_views_len(b.group_by@);
        agg_item_views_len(b.reductions@);
    }
    let mut out = "\naggregate {\n".to_string();
    out.append(agg_lines_string(&b.reductions, b.reductions.len()).as_str());
    out.append("}");
    if b.group_by.len() > 0 {
        if b.rollup {
            out.append(" by rollup(");
            out.append(exprs_string(&b.group_by).as_str());
            out.append(")");
        } else {
            out.append(" by ");
            out.append(exprs_string(&b.group_by).as_str());
        }
    }
    out
}

/// The aggregate clause.
#[verifier::spinoff_prover]
fn format_aggregate(o: &Option<AggregateClause>) -> (out: String)
    ensures
        out@ == aggregate_text(opt_aggregate_view(*o)),
    decreases o, 0int,
{
    proof {
        reveal(opt_aggregate_view);
        reveal(aggregate_view);
        reveal(block_view);
        reveal(expr_view);
    }
    match o {
        Some(AggregateClause::Block(b)) => format_aggregate_block(b),
        Some(AggregateClause::Group(g)) => {
            let mut out = "\ncollect by ".to_string();
            out.append(expr_string(&g.key).as_str());
            out
        },
        None => empty().to_string(),
    }
}

/// The `having` clause.
#[verifier::spinoff_prover]
fn format_having(o: &Option<Expr>) -> (out: String)
    ensures
        out@ == having_text(opt_expr_view(*o)),
    decreases o, 0int,
{
    proof {
        reveal(opt_expr_view);
        reveal(expr_view);
    }
    match o {
        Some(e) => {
            let mut out = "\nhaving ".to_string();
            out.append(expr_string(e).as_str());
            out
        },
        None => empty().to_string(),
    }
}

/// The fields of a `select` block.
#[verifier::spinoff_prover]
fn select_lines_string(v: &Vec<(String, Expr)>, n: usize) -> (out: String)
    requires
        n == v@.len(),
    ensures
        out@ == select_lines(select_views(v@), n as nat),
    decreases v, 0int,
{
    let ghost all = select_views(v@);
    let mut out = String::new();
    let mut i: usize = 0;
    proof {
        select_views_len(v@);
    }
    assert(out@ =~= select_lines(all.take(0), n as nat));
    while i < v.len()
        invariant
            n == v@.len(),
            i <= v@.len(),
            all == select_views(v@),
            out@ == select_lines(all.take(i as int), n as nat),
        decreases v@.len() - i,
    {
        proof {
            reveal(select_views);
            reveal(expr_view);
        }
        let ghost next = all.take(i + 1);
        assert(all.len() == v@.len());
        assert(next.drop_last() =~= all.take(i as int));
        assert(next.last() == all[i as int]);
        assert(decreases_to!(v => v@[i as int]));
        out.append("  ");
        out.append(select_field_string(&v[i]).as_str());
        out.append(line_end_string(i, n));
        i += 1;
        assert(out@ == select_lines(next, n as nat));
    }
    assert(all.take(i as int) =~= all);
    out
}

/// One field of a `select` block.
#[verifier::spinoff_prover]
fn select_field_string(f: &(String, Expr)) -> (out: String)
    ensures
        out@ == select_field_text((f.0@, f.1@)),
    decreases f, 0int,
{
    let mut out = name_string(f.0.as_str());
    out.append(": ");
    out.append(expr_string(&f.1).as_str());
    out
}

/// The `select` clause.
#[verifier::spinoff_prover]
fn format_select(o: &Option<Vec<(String, Expr)>>) -> (out: String)
    ensures
        out@ == select_text(opt_select_view(*o)),
    decreases o, 0int,
{
    proof {
        reveal(opt_select_view);
        reveal(select_views);
    }
    match o {
        Some(v) => {
            proof {
                select_views_len(v@);
            }
            let mut out = "\nselect {\n".to_string();
            out.append(select_lines_string(v, v.len()).as_str());
            out.append("}");
            out
        },
        None => empty().to_string(),
    }
}

/// One sort key.
#[verifier::spinoff_prover]
fn order_key_string(k: &OrderKey) -> (out: String)
    ensures
        out@ == order_key_text(k@),
    decreases k, 0int,
{
    proof {
        reveal(order_view);
        reveal(expr_view);
    }
    let mut out = expr_string(&k.expr);
    if k.desc {
        out.append(" desc");
    }
    out
}

/// The `order by` clause.
#[verifier::spinoff_prover]
fn format_order_by(v: &Vec<OrderKey>) -> (out: String)
    ensures
        out@ == order_text(order_views(v@)),
    decreases v, 0int,
{
    let ghost all = order_views(v@);
    let mut out = String::new();
    let mut i: usize = 0;
    proof {
        reveal(order_views);
        reveal(order_view);
    }
    assert(out@ =~= order_text(all.take(0)));
    while i < v.len()
        invariant
            i <= v@.len(),
            all == order_views(v@),
            out@ == order_text(all.take(i as int)),
        decreases v@.len() - i,
    {
        proof {
            reveal(order_views);
            reveal(order_view);
        }
        let ghost next = all.take(i + 1);
        assert(all.len() == v@.len());
        assert(next.drop_last() =~= all.take(i as int));
        assert(next.last() == all[i as int]);
        assert(decreases_to!(v => v@[i as int]));
        out.append(if i == 0 {
                "\norder by "
            } else {
                ", "
            });
        out.append(order_key_string(&v[i]).as_str());
        i += 1;
        assert(out@ == order_text(next));
    }
    assert(all.take(i as int) =~= all);
    out
}

/// The `limit` clause.
fn limit_string(o: &Option<u64>) -> (out: String)
    ensures
        out@ == limit_text(*o),
{
    match o {
        Some(n) => {
            let mut out = "\nlimit ".to_string();
            out.append(decimal(*n).as_str());
            out
        },
        None => empty().to_string(),
    }
}

/// A query in the fixed layout.
#[verifier::spinoff_prover]
pub fn format_query(q: &Query) -> (out: String)
    ensures
        out@ == query_text(q@),
    decreases q, 0int,
{
    proof {
        reveal(query_view);
        reveal(field_set_views);
        reveal(source_view);
        reveal(path_view);
        reveal(join_views);
        reveal(unnest_views);
        reveal(opt_expr_view);
        reveal(let_views);
        reveal(opt_aggregate_view);
        reveal(opt_select_view);
        reveal(order_views);
    }
    let mut out = set_defs_string(&q.field_sets);
    out.append(
        if q.field_sets.len() == 0 {
            empty()
        } else {
            "\n"
        },
    );
    out.append("from ");
    out.append(path_string(&q.source.path).as_str());
    out.append(" as ");
    out.append(q.source.alias.as_str());
    out.append(joins_string(&q.joins).as_str());
    out.append(unnests_string(&q.unnests).as_str());
    out.append(format_where(&q.where_clause).as_str());
    out.append(lets_string(&q.alias_lets).as_str());
    out.append(
        if q.distinct {
            "\ndistinct"
        } else {
            empty()
        },
    );
    out.append(format_aggregate(&q.aggregate).as_str());
    out.append(format_having(&q.having).as_str());
    out.append(format_select(&q.project).as_str());
    out.append(format_order_by(&q.order_by).as_str());
    out.append(limit_string(&q.limit).as_str());
    out
}

} // verus!
